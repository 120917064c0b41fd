use ratewall::config::{
    AuthConfig, BreakerConfig, ConfigError, GatewayConfig, RateLimitConfig,
};
use ratewall::table::Table;
use ratewall::time::Duration;

fn routes(entries: &[(&str, &str)]) -> Table<String> {
    let mut table: Table<String> = Table::new();
    for (prefix, backend) in entries {
        table.insert(prefix.to_string(), backend.to_string());
    }
    table
}

fn config(entries: &[(&str, &str)]) -> GatewayConfig {
    GatewayConfig {
        port: 8080,
        routes: routes(entries),
        auth: AuthConfig::default(),
        ratelimit: RateLimitConfig::default(),
        breaker: BreakerConfig::default(),
    }
}

fn minimal() -> GatewayConfig {
    config(&[("crm", "http://crm:3000")])
}

fn refused(config: GatewayConfig) -> ConfigError {
    GatewayConfig::from_parsed(Ok(config)).unwrap_err()
}

#[test]
fn version_is_exposed() {
    assert_eq!(ratewall::VERSION, "1.0.0");
}

#[test]
fn valid_config_parses_and_validates() {
    let config = GatewayConfig::from_parsed(Ok(config(&[
        ("crm", "http://crm:3000"),
        ("hrm", "http://hrm:3001"),
    ])))
    .expect("valid config");
    assert_eq!(config.port, 8080);
    let routes = config.validate().expect("routes");
    assert_eq!(routes.len(), 2);
    let crm = routes.iter().find(|r| r.prefix == "crm").unwrap();
    assert_eq!(crm.backend, "http://crm:3000");
}

#[test]
fn defaults_apply_when_fields_missing() {
    assert_eq!(ratewall::config::default_port(), 8080);
    assert_eq!(ratewall::config::default_token_ttl_secs(), 900);
    assert_eq!(ratewall::config::default_rl_limit(), 100);
    assert_eq!(ratewall::config::default_rl_window_secs(), 60);
    assert_eq!(ratewall::config::default_breaker_failure_threshold(), 5);
    assert_eq!(ratewall::config::default_breaker_cooldown_secs(), 30);
    assert_eq!(ratewall::config::default_breaker_timeout_secs(), 15);
}

#[test]
fn a_cloned_configuration_validates_alike() {
    let config = config(&[("b", "http://b:1/"), ("a", "http://a:1")]);
    let copy = config.clone();
    assert_eq!(copy.validate(), config.validate());
    assert_eq!(copy.routes.len(), 2);
    assert_eq!(copy.routes.get("b"), Some(&"http://b:1/".to_string()));
}

#[test]
fn empty_route_table_is_rejected() {
    assert_eq!(refused(config(&[])), ConfigError::NoRoutes);
}

#[test]
fn unreadable_text_is_a_parse_error() {
    let error = GatewayConfig::from_parsed(Err("expected `=`".to_string())).unwrap_err();
    assert_eq!(error, ConfigError::Parse("expected `=`".to_string()));
    assert_eq!(error.message(), "config parse error: expected `=`");
}

#[test]
fn prefix_with_slash_is_rejected() {
    let error = refused(config(&[("a/b", "http://x:1")]));
    assert_eq!(error, ConfigError::InvalidPrefix("a/b".to_string()));
}

#[test]
fn empty_and_odd_prefixes_are_rejected() {
    for prefix in ["", " ", "a b", "caf\u{e9}", "a.b", "a%20", "my-app", "a_b"] {
        let error = refused(config(&[(prefix, "http://x:1")]));
        assert_eq!(error, ConfigError::InvalidPrefix(prefix.to_string()));
    }
    for prefix in ["crm", "CRM2", "0"] {
        assert!(config(&[(prefix, "http://x:1")]).validate().is_ok());
    }
}

#[test]
fn non_http_backend_is_rejected() {
    assert_eq!(
        config(&[("crm", "tcp://crm:3000")]).validate().unwrap_err(),
        ConfigError::InvalidBackend {
            prefix: "crm".to_string(),
            backend: "tcp://crm:3000".to_string()
        }
    );
}

#[test]
fn backend_with_no_host_is_rejected() {
    assert!(matches!(
        config(&[("crm", "http://")]).validate().unwrap_err(),
        ConfigError::InvalidBackend { .. }
    ));
}

#[test]
fn hostless_urls_of_every_kind_are_rejected() {
    for backend in ["https://", "http:///", "https:///x", "http://?a", "http://#a", "http:", ""] {
        assert!(
            matches!(
                config(&[("crm", backend)]).validate().unwrap_err(),
                ConfigError::InvalidBackend { .. }
            ),
            "{backend}"
        );
    }
    assert!(config(&[("crm", "https://h")]).validate().is_ok());
}

#[test]
fn trailing_slash_in_backend_is_trimmed() {
    let routes = config(&[("crm", "http://crm:3000/")]).validate().expect("valid");
    assert_eq!(routes[0].backend, "http://crm:3000");
}

#[test]
fn every_trailing_slash_is_trimmed() {
    let routes = config(&[("crm", "http://crm:3000/api///")]).validate().expect("valid");
    assert_eq!(routes[0].backend, "http://crm:3000/api");
}

#[test]
fn routes_come_in_the_order_of_their_prefixes() {
    let routes = config(&[
        ("b", "http://b:1"),
        ("a", "http://a:1"),
        ("ab", "http://ab:1"),
        ("B", "http://upper:1"),
    ])
    .validate()
    .expect("valid");
    let prefixes: Vec<&str> = routes.iter().map(|route| route.prefix.as_str()).collect();
    assert_eq!(prefixes, vec!["B", "a", "ab", "b"]);
}

#[test]
fn the_first_defect_is_reported() {
    let error = refused(config(&[("a/b", "http://x:1"), ("zz", "tcp://x")]));
    assert_eq!(error, ConfigError::InvalidPrefix("a/b".to_string()));
    let error = refused(config(&[("aa", "tcp://x"), ("z/z", "http://x:1")]));
    assert!(matches!(error, ConfigError::InvalidBackend { .. }));
}

#[test]
fn auth_defaults_to_own_keys_mode() {
    let config = GatewayConfig::from_parsed(Ok(minimal())).expect("valid");
    assert!(config.auth.issues_own_tokens());
    assert_eq!(config.auth.token_ttl_secs, 900);
}

#[test]
fn auth_issuer_without_key_is_rejected() {
    let mut config = minimal();
    config.auth.issuer = Some("https://ext".to_string());
    assert!(matches!(refused(config), ConfigError::InvalidAuth(_)));
}

#[test]
fn auth_key_without_issuer_is_rejected() {
    let mut config = minimal();
    config.auth.issuer_public_key_pem = Some("/keys/ext.pem".to_string());
    assert!(matches!(refused(config), ConfigError::InvalidAuth(_)));
}

#[test]
fn auth_external_mode_with_both_fields_is_valid() {
    let mut config = minimal();
    config.auth.issuer = Some("https://ext".to_string());
    config.auth.issuer_public_key_pem = Some("/keys/ext.pem".to_string());
    config.auth.keys_dir = Some("/keys".to_string());
    let config = GatewayConfig::from_parsed(Ok(config)).expect("valid external issuer config");
    assert!(!config.auth.issues_own_tokens());
}

#[test]
fn external_mode_needs_no_keys_directory() {
    let mut config = minimal();
    config.auth.issuer = Some("https://your-idp.example".to_string());
    config.auth.issuer_public_key_pem = Some("/keys/idp-public.pem".to_string());
    assert!(GatewayConfig::from_parsed(Ok(config)).is_ok());
}

#[test]
fn ratelimit_defaults_apply_when_section_missing() {
    let config = GatewayConfig::from_parsed(Ok(minimal())).expect("valid");
    assert_eq!(config.ratelimit.limit, 100);
    assert_eq!(config.ratelimit.window_secs, 60);
    assert_eq!(config.ratelimit.redis_url, "redis://redis:6379");
}

#[test]
fn ratelimit_section_overrides_defaults() {
    let mut config = minimal();
    config.ratelimit = RateLimitConfig {
        redis_url: "redis://r:1".to_string(),
        limit: 5,
        window_secs: 30,
    };
    let config = GatewayConfig::from_parsed(Ok(config)).expect("valid");
    assert_eq!(config.ratelimit.limit, 5);
    assert_eq!(config.ratelimit.window_secs, 30);
}

#[test]
fn ratelimit_zero_limit_is_rejected() {
    let mut config = minimal();
    config.ratelimit.limit = 0;
    assert!(matches!(refused(config), ConfigError::InvalidRateLimit(_)));
}

#[test]
fn ratelimit_zero_window_is_rejected() {
    let mut config = minimal();
    config.ratelimit.window_secs = 0;
    assert!(matches!(refused(config), ConfigError::InvalidRateLimit(_)));
}

#[test]
fn ratelimit_empty_redis_url_is_rejected() {
    let mut config = minimal();
    config.ratelimit.redis_url = String::new();
    assert!(matches!(refused(config), ConfigError::InvalidRateLimit(_)));
}

#[test]
fn breaker_defaults_apply_when_section_missing() {
    let config = GatewayConfig::from_parsed(Ok(minimal())).expect("valid");
    assert_eq!(config.breaker.failure_threshold, 5);
    assert_eq!(config.breaker.cooldown_secs, 30);
    assert_eq!(config.breaker.timeout_secs, 15);
    assert_eq!(config.backend_timeout(), Duration::from_secs(15));
}

#[test]
fn breaker_section_overrides_defaults() {
    let mut config = minimal();
    config.breaker = BreakerConfig { failure_threshold: 2, cooldown_secs: 60, timeout_secs: 3 };
    let config = GatewayConfig::from_parsed(Ok(config)).expect("valid");
    assert_eq!(config.breaker.failure_threshold, 2);
    assert_eq!(config.breaker.cooldown_secs, 60);
    assert_eq!(config.backend_timeout(), Duration::from_secs(3));
}

#[test]
fn breaker_zero_values_are_rejected() {
    let good = BreakerConfig::default();
    for (field, breaker) in [
        ("failure_threshold", BreakerConfig { failure_threshold: 0, ..good.clone() }),
        ("cooldown_secs", BreakerConfig { cooldown_secs: 0, ..good.clone() }),
        ("timeout_secs", BreakerConfig { timeout_secs: 0, ..good.clone() }),
    ] {
        let mut config = minimal();
        config.breaker = breaker;
        let error = refused(config);
        assert!(
            matches!(error, ConfigError::InvalidBreaker(_)),
            "{field} = 0 should be InvalidBreaker, got {error:?}"
        );
        assert_eq!(
            error.message(),
            format!("invalid [breaker] config: {field} must be at least 1")
        );
    }
}

#[test]
fn error_messages_say_what_is_wrong() {
    assert_eq!(
        ConfigError::InvalidPrefix("a\"b".to_string()).message(),
        "invalid route prefix \"a\\\"b\": must be a single path segment (alphanumeric, no slashes)"
    );
    assert_eq!(
        ConfigError::InvalidBackend { prefix: "crm".to_string(), backend: "tcp://x".to_string() }
            .message(),
        "route \"crm\": backend \"tcp://x\" is not an absolute http(s) URL"
    );
    assert_eq!(
        ConfigError::NoRoutes.message(),
        "no routes configured: add at least one [routes] entry"
    );
    assert_eq!(ConfigError::InvalidAuth("x".to_string()).message(), "invalid [auth] config: x");
    assert_eq!(
        ConfigError::InvalidRateLimit("x".to_string()).message(),
        "invalid [ratelimit] config: x"
    );
}
