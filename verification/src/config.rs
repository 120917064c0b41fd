//! Gateway configuration.
//!
//! The configuration is validated once, at startup: a gateway refuses to start
//! on a bad configuration rather than failing at request time.

use vstd::prelude::*;
use vstd::string::*;

use crate::table::{increasing, Table};
use crate::text::precedes;
use crate::text::{chars_of, quoted, starts_with, trim_end};
use crate::text::{debug_text, law_trimming_takes_the_run, run_of, trim_end_of};
use crate::time::{Duration, NANOS_PER_SEC};

verus! {

/// Listen port of a gateway whose configuration names none.
pub fn default_port() -> (port: u16)
    ensures
        port == 8080,
{
    8080
}

/// Lifetime of issued tokens, in seconds, where the configuration names none:
/// 15 minutes.
pub fn default_token_ttl_secs() -> (secs: u64)
    ensures
        secs == 900,
{
    900
}

/// Requests allowed per key and window where the configuration names none.
pub fn default_rl_limit() -> (limit: u32)
    ensures
        limit == 100,
{
    100
}

/// Window length, in seconds, where the configuration names none.
pub fn default_rl_window_secs() -> (secs: u64)
    ensures
        secs == 60,
{
    60
}

/// Redis URL where the configuration names none.
pub fn default_rl_redis_url() -> (url: String)
    ensures
        url@ == "redis://redis:6379"@,
{
    "redis://redis:6379".to_owned()
}

/// Failures that open a breaker where the configuration names none.
pub fn default_breaker_failure_threshold() -> (threshold: u32)
    ensures
        threshold == 5,
{
    5
}

/// Cooldown of an open breaker, in seconds, where the configuration names none.
pub fn default_breaker_cooldown_secs() -> (secs: u64)
    ensures
        secs == 30,
{
    30
}

/// Timeout of a backend call, in seconds, where the configuration names none.
pub fn default_breaker_timeout_secs() -> (secs: u64)
    ensures
        secs == 15,
{
    15
}

/// Circuit-breaker configuration.
///
/// One breaker per configured backend, all sharing these thresholds. Only
/// transport failures count toward `failure_threshold`.
#[derive(Debug, Clone, PartialEq, Eq)]
pub struct BreakerConfig {
    /// Consecutive transport failures that open a backend's breaker.
    pub failure_threshold: u32,
    /// Seconds an open breaker waits before allowing one probe request.
    pub cooldown_secs: u64,
    /// Timeout of one backend call, in seconds. A timeout is a transport
    /// failure.
    pub timeout_secs: u64,
}

impl Default for BreakerConfig {
    fn default() -> (config: Self)
        ensures
            config.failure_threshold == 5,
            config.cooldown_secs == 30,
            config.timeout_secs == 15,
    {
        BreakerConfig {
            failure_threshold: default_breaker_failure_threshold(),
            cooldown_secs: default_breaker_cooldown_secs(),
            timeout_secs: default_breaker_timeout_secs(),
        }
    }
}

/// Auth configuration, in one of two modes.
///
/// - Own keys (the default): neither `issuer` nor `issuer_public_key_pem` is
///   set. The gateway keeps an Ed25519 keypair in `keys_dir` and issues tokens.
/// - External issuer: both are set. The gateway only verifies tokens of that
///   issuer and issues none.
#[derive(Debug, Clone, PartialEq, Eq)]
pub struct AuthConfig {
    /// Directory of the signing keypair (own-keys mode).
    pub keys_dir: Option<String>,
    /// Trusted issuer (external-issuer mode).
    pub issuer: Option<String>,
    /// Path of the trusted issuer's Ed25519 public key in PEM (external-issuer
    /// mode).
    pub issuer_public_key_pem: Option<String>,
    /// Lifetime of issued tokens, in seconds.
    pub token_ttl_secs: u64,
}

impl Default for AuthConfig {
    fn default() -> (config: Self)
        ensures
            config.keys_dir is None,
            config.issuer is None,
            config.issuer_public_key_pem is None,
            config.token_ttl_secs == 900,
    {
        AuthConfig {
            keys_dir: None,
            issuer: None,
            issuer_public_key_pem: None,
            token_ttl_secs: default_token_ttl_secs(),
        }
    }
}

impl AuthConfig {
    /// True when the gateway issues its own tokens.
    pub fn issues_own_tokens(&self) -> (own: bool)
        ensures
            own == (self.issuer is None && self.issuer_public_key_pem is None),
    {
        self.issuer.is_none() && self.issuer_public_key_pem.is_none()
    }
}

/// Rate-limit configuration: a fixed window per key.
#[derive(Debug, Clone, PartialEq, Eq)]
pub struct RateLimitConfig {
    /// Redis URL of the shared counters.
    pub redis_url: String,
    /// Requests allowed per key and window.
    pub limit: u32,
    /// Window length in seconds.
    pub window_secs: u64,
}

impl Default for RateLimitConfig {
    fn default() -> (config: Self)
        ensures
            config.redis_url@ == "redis://redis:6379"@,
            config.limit == 100,
            config.window_secs == 60,
    {
        RateLimitConfig {
            redis_url: default_rl_redis_url(),
            limit: default_rl_limit(),
            window_secs: default_rl_window_secs(),
        }
    }
}

/// A validated route binding.
#[derive(Debug, Clone, PartialEq, Eq)]
pub struct Route {
    /// Path prefix, served at `/{prefix}/*`.
    pub prefix: String,
    /// Backend base URL, without a slash at its end.
    pub backend: String,
}

/// A route by its characters.
pub struct RouteView {
    pub prefix: Seq<char>,
    pub backend: Seq<char>,
}

impl View for Route {
    type V = RouteView;

    open spec fn view(&self) -> RouteView {
        RouteView { prefix: self.prefix@, backend: self.backend@ }
    }
}

/// The routes of a list, each by its characters.
pub open spec fn route_views(routes: Seq<Route>) -> Seq<RouteView> {
    routes.map_values(|route: Route| route@)
}

/// What makes a configuration unusable.
#[derive(Debug, Clone, PartialEq, Eq)]
pub enum ConfigError {
    /// The text is no configuration.
    Parse(String),
    /// A route prefix is not a clean single path segment.
    InvalidPrefix(String),
    /// A backend URL is not an absolute http(s) URL.
    InvalidBackend { prefix: String, backend: String },
    /// The route table is empty.
    NoRoutes,
    /// The auth section contradicts itself.
    InvalidAuth(String),
    /// The rate-limit section has unusable values.
    InvalidRateLimit(String),
    /// The breaker section has unusable values.
    InvalidBreaker(String),
}

/// A configuration error by its characters.
pub enum ConfigErrorView {
    Parse(Seq<char>),
    InvalidPrefix(Seq<char>),
    InvalidBackend { prefix: Seq<char>, backend: Seq<char> },
    NoRoutes,
    InvalidAuth(Seq<char>),
    InvalidRateLimit(Seq<char>),
    InvalidBreaker(Seq<char>),
}

impl View for ConfigError {
    type V = ConfigErrorView;

    open spec fn view(&self) -> ConfigErrorView {
        match self {
            ConfigError::Parse(m) => ConfigErrorView::Parse(m@),
            ConfigError::InvalidPrefix(p) => ConfigErrorView::InvalidPrefix(p@),
            ConfigError::InvalidBackend { prefix, backend } => ConfigErrorView::InvalidBackend {
                prefix: prefix@,
                backend: backend@,
            },
            ConfigError::NoRoutes => ConfigErrorView::NoRoutes,
            ConfigError::InvalidAuth(m) => ConfigErrorView::InvalidAuth(m@),
            ConfigError::InvalidRateLimit(m) => ConfigErrorView::InvalidRateLimit(m@),
            ConfigError::InvalidBreaker(m) => ConfigErrorView::InvalidBreaker(m@),
        }
    }
}

/// The message an operator sees for a configuration error.
pub open spec fn config_error_message(error: ConfigErrorView) -> Seq<char> {
    match error {
        ConfigErrorView::Parse(m) => "config parse error: "@ + m,
        ConfigErrorView::InvalidPrefix(p) => "invalid route prefix "@ + debug_text(p)
            + ": must be a single path segment (alphanumeric, no slashes)"@,
        ConfigErrorView::InvalidBackend { prefix, backend } => "route "@ + debug_text(prefix)
            + ": backend "@ + debug_text(backend) + " is not an absolute http(s) URL"@,
        ConfigErrorView::NoRoutes => "no routes configured: add at least one [routes] entry"@,
        ConfigErrorView::InvalidAuth(m) => "invalid [auth] config: "@ + m,
        ConfigErrorView::InvalidRateLimit(m) => "invalid [ratelimit] config: "@ + m,
        ConfigErrorView::InvalidBreaker(m) => "invalid [breaker] config: "@ + m,
    }
}

impl ConfigError {
    /// The message an operator sees.
    pub fn message(&self) -> (message: String)
        ensures
            message@ == config_error_message(self@),
    {
        match self {
            ConfigError::Parse(m) => "config parse error: ".to_owned().concat(m.as_str()),
            ConfigError::InvalidPrefix(p) => "invalid route prefix ".to_owned().concat(
                quoted(p.as_str()).as_str(),
            ).concat(": must be a single path segment (alphanumeric, no slashes)"),
            ConfigError::InvalidBackend { prefix, backend } => "route ".to_owned().concat(
                quoted(prefix.as_str()).as_str(),
            ).concat(": backend ").concat(quoted(backend.as_str()).as_str()).concat(
                " is not an absolute http(s) URL",
            ),
            ConfigError::NoRoutes =>
                "no routes configured: add at least one [routes] entry".to_owned(),
            ConfigError::InvalidAuth(m) => "invalid [auth] config: ".to_owned().concat(m.as_str()),
            ConfigError::InvalidRateLimit(m) => "invalid [ratelimit] config: ".to_owned().concat(
                m.as_str(),
            ),
            ConfigError::InvalidBreaker(m) => "invalid [breaker] config: ".to_owned().concat(
                m.as_str(),
            ),
        }
    }
}

/// A character that a route prefix may hold: a letter or a digit.
pub open spec fn is_prefix_char(c: char) -> bool {
    'a' <= c <= 'z' || 'A' <= c <= 'Z' || '0' <= c <= '9'
}

/// A clean single path segment.
pub open spec fn is_clean_segment(prefix: Seq<char>) -> bool {
    &&& prefix.len() > 0
    &&& forall|i: int| 0 <= i < prefix.len() ==> is_prefix_char(#[trigger] prefix[i])
}

/// `url` is `scheme` followed by a host: what comes after the scheme is there
/// and does not start the path, the query or the fragment.
pub open spec fn has_host_after(url: Seq<char>, scheme: Seq<char>) -> bool {
    &&& scheme.is_prefix_of(url)
    &&& url.len() > scheme.len()
    &&& url[scheme.len() as int] != '/'
    &&& url[scheme.len() as int] != '?'
    &&& url[scheme.len() as int] != '#'
}

/// An absolute http(s) URL, as far as startup checks it: the scheme, and that
/// a host follows.
pub open spec fn is_absolute_http_url(url: Seq<char>) -> bool {
    has_host_after(url, "http://"@) || has_host_after(url, "https://"@)
}

/// Why one entry of the route table is rejected, if it is.
pub open spec fn route_error(prefix: Seq<char>, backend: Seq<char>) -> Option<ConfigErrorView> {
    if !is_clean_segment(prefix) {
        Some(ConfigErrorView::InvalidPrefix(prefix))
    } else if !is_absolute_http_url(backend) {
        Some(ConfigErrorView::InvalidBackend { prefix, backend })
    } else {
        None
    }
}

/// The routes under `keys`, in that order, or the error of the first entry
/// that is rejected.
pub open spec fn bind_routes(keys: Seq<Seq<char>>, backends: Map<Seq<char>, String>) -> Result<
    Seq<RouteView>,
    ConfigErrorView,
>
    decreases keys.len(),
{
    if keys.len() == 0 {
        Ok(Seq::empty())
    } else {
        match bind_routes(keys.drop_last(), backends) {
            Err(error) => Err(error),
            Ok(routes) => {
                let prefix = keys.last();
                let backend = backends[prefix]@;
                match route_error(prefix, backend) {
                    Some(error) => Err(error),
                    None => Ok(
                        routes.push(RouteView { prefix, backend: trim_end_of(backend, '/') }),
                    ),
                }
            },
        }
    }
}

/// Top-level gateway configuration.
#[derive(Debug, Clone)]
pub struct GatewayConfig {
    /// Listen port of the gateway itself.
    pub port: u16,
    /// Route table: path prefix to backend.
    pub routes: Table<String>,
    /// Auth configuration.
    pub auth: AuthConfig,
    /// Rate limiting.
    pub ratelimit: RateLimitConfig,
    /// Circuit breakers.
    pub breaker: BreakerConfig,
}

impl GatewayConfig {
    /// Why the configuration is rejected before its routes are looked at, if
    /// it is.
    pub open spec fn settings_error(&self) -> Option<ConfigErrorView> {
        if self.auth.issuer is Some != self.auth.issuer_public_key_pem is Some {
            Some(
                ConfigErrorView::InvalidAuth(
                    "issuer and issuer_public_key_pem must be set together"@,
                ),
            )
        } else if self.routes.keys().len() == 0 {
            Some(ConfigErrorView::NoRoutes)
        } else if self.ratelimit.limit == 0 {
            Some(ConfigErrorView::InvalidRateLimit("limit must be at least 1"@))
        } else if self.ratelimit.window_secs == 0 {
            Some(ConfigErrorView::InvalidRateLimit("window_secs must be at least 1"@))
        } else if self.ratelimit.redis_url@.len() == 0 {
            Some(ConfigErrorView::InvalidRateLimit("redis_url must not be empty"@))
        } else if self.breaker.failure_threshold == 0 {
            Some(ConfigErrorView::InvalidBreaker("failure_threshold must be at least 1"@))
        } else if self.breaker.cooldown_secs == 0 {
            Some(ConfigErrorView::InvalidBreaker("cooldown_secs must be at least 1"@))
        } else if self.breaker.timeout_secs == 0 {
            Some(ConfigErrorView::InvalidBreaker("timeout_secs must be at least 1"@))
        } else {
            None
        }
    }

    /// What validation answers: the routes in the order of their prefixes, or
    /// the first error.
    pub open spec fn verdict(&self) -> Result<Seq<RouteView>, ConfigErrorView> {
        match self.settings_error() {
            Some(error) => Err(error),
            None => bind_routes(self.routes.keys(), self.routes@),
        }
    }

    fn check_settings(&self) -> (error: Option<ConfigError>)
        ensures
            error is Some <==> self.settings_error() is Some,
            error is Some ==> error->0@ == self.settings_error()->0,
    {
        if self.auth.issuer.is_some() != self.auth.issuer_public_key_pem.is_some() {
            return Some(
                ConfigError::InvalidAuth(
                    "issuer and issuer_public_key_pem must be set together".to_owned(),
                ),
            );
        }
        if self.routes.len() == 0 {
            return Some(ConfigError::NoRoutes);
        }
        if self.ratelimit.limit == 0 {
            return Some(ConfigError::InvalidRateLimit("limit must be at least 1".to_owned()));
        }
        if self.ratelimit.window_secs == 0 {
            return Some(ConfigError::InvalidRateLimit("window_secs must be at least 1".to_owned()));
        }
        if self.ratelimit.redis_url.as_str().is_empty() {
            return Some(ConfigError::InvalidRateLimit("redis_url must not be empty".to_owned()));
        }
        if self.breaker.failure_threshold == 0 {
            return Some(
                ConfigError::InvalidBreaker("failure_threshold must be at least 1".to_owned()),
            );
        }
        if self.breaker.cooldown_secs == 0 {
            return Some(ConfigError::InvalidBreaker("cooldown_secs must be at least 1".to_owned()));
        }
        if self.breaker.timeout_secs == 0 {
            return Some(ConfigError::InvalidBreaker("timeout_secs must be at least 1".to_owned()));
        }
        None
    }

    /// Validates the configuration: the routes in the order of their prefixes,
    /// backends without slashes at their end, or the first error found.
    pub fn validate(&self) -> (result: Result<Vec<Route>, ConfigError>)
        ensures
            match result {
                Ok(routes) => self.verdict() == Ok::<_, ConfigErrorView>(route_views(routes@)),
                Err(error) => self.verdict() == Err::<Seq<RouteView>, _>(error@),
            },
    {
        if let Some(error) = self.check_settings() {
            return Err(error);
        }
        let n: usize = self.routes.len();
        let ghost keys = self.routes.keys();
        let mut routes: Vec<Route> = Vec::with_capacity(n);
        let mut i: usize = 0;
        assert(route_views(routes@) =~= Seq::empty());
        while i < n
            invariant
                0 <= i <= n,
                n == keys.len(),
                keys == self.routes.keys(),
                self.settings_error() is None,
                bind_routes(keys.take(i as int), self.routes@) == Ok::<_, ConfigErrorView>(
                    route_views(routes@),
                ),
            decreases n - i,
        {
            let prefix = self.routes.key_at(i);
            let backend = self.routes.value_at(i);
            proof {
                assert(keys.take(i + 1).drop_last() =~= keys.take(i as int));
                assert(keys.take(i + 1).last() == prefix@);
            }
            if let Some(error) = check_route(prefix, backend) {
                proof {
                    assert(bind_routes(keys.take(i + 1), self.routes@) == Err::<Seq<RouteView>, _>(
                        error@,
                    ));
                    lemma_first_error_stands(keys, self.routes@, i + 1);
                }
                return Err(error);
            }
            let ghost before = routes@;
            routes.push(
                Route { prefix: prefix.clone(), backend: trim_end(backend.as_str(), '/') },
            );
            assert(route_views(routes@) =~= route_views(before).push(routes@.last()@));
            i += 1;
        }
        assert(keys.take(n as int) =~= keys);
        Ok(routes)
    }

    /// Turns what was read of a configuration file into a usable
    /// configuration: a reading error is reported as such, and what was read
    /// is validated.
    pub fn from_parsed(parsed: Result<GatewayConfig, String>) -> (result: Result<
        GatewayConfig,
        ConfigError,
    >)
        ensures
            match parsed {
                Err(message) => result matches Err(error) && error@ == ConfigErrorView::Parse(
                    message@,
                ),
                Ok(config) => match config.verdict() {
                    Ok(_) => result == Ok::<_, ConfigError>(config),
                    Err(expected) => result matches Err(error) && error@ == expected,
                },
            },
    {
        match parsed {
            Err(message) => Err(ConfigError::Parse(message)),
            Ok(config) => match config.validate() {
                Ok(_) => Ok(config),
                Err(error) => Err(error),
            },
        }
    }

    /// Timeout of one backend call.
    pub fn backend_timeout(&self) -> (timeout: Duration)
        ensures
            timeout@ == self.breaker.timeout_secs * NANOS_PER_SEC,
    {
        Duration::from_secs(self.breaker.timeout_secs)
    }
}

/// Whether `c` may stand in a route prefix.
fn allowed_in_prefix(c: char) -> (allowed: bool)
    ensures
        allowed == is_prefix_char(c),
{
    ('a' <= c && c <= 'z') || ('A' <= c && c <= 'Z') || ('0' <= c && c <= '9')
}

fn clean_segment(prefix: &str) -> (clean: bool)
    ensures
        clean == is_clean_segment(prefix@),
{
    let chars = chars_of(prefix);
    if chars.len() == 0 {
        return false;
    }
    let mut i: usize = 0;
    while i < chars.len()
        invariant
            0 <= i <= chars@.len(),
            chars@ == prefix@,
            forall|k: int| 0 <= k < i ==> is_prefix_char(#[trigger] chars@[k]),
        decreases chars@.len() - i,
    {
        if !allowed_in_prefix(chars[i]) {
            return false;
        }
        i += 1;
    }
    true
}

fn host_after(url: &Vec<char>, scheme: &str) -> (found: bool)
    ensures
        found == has_host_after(url@, scheme@),
{
    if !starts_with(url, scheme) {
        return false;
    }
    let n: usize = chars_of(scheme).len();
    n < url.len() && url[n] != '/' && url[n] != '?' && url[n] != '#'
}

fn absolute_http_url(url: &str) -> (absolute: bool)
    ensures
        absolute == is_absolute_http_url(url@),
{
    let chars = chars_of(url);
    host_after(&chars, "http://") || host_after(&chars, "https://")
}

fn check_route(prefix: &String, backend: &String) -> (error: Option<ConfigError>)
    ensures
        error is Some <==> route_error(prefix@, backend@) is Some,
        error is Some ==> error->0@ == route_error(prefix@, backend@)->0,
{
    if !clean_segment(prefix.as_str()) {
        return Some(ConfigError::InvalidPrefix(prefix.clone()));
    }
    if !absolute_http_url(backend.as_str()) {
        return Some(
            ConfigError::InvalidBackend { prefix: prefix.clone(), backend: backend.clone() },
        );
    }
    None
}

/// An error among the first `n` entries is the error of the whole table.
proof fn lemma_first_error_stands(
    keys: Seq<Seq<char>>,
    backends: Map<Seq<char>, String>,
    n: int,
)
    requires
        0 <= n <= keys.len(),
        bind_routes(keys.take(n), backends) is Err,
    ensures
        bind_routes(keys, backends) == bind_routes(keys.take(n), backends),
    decreases keys.len(),
{
    if n == keys.len() {
        assert(keys.take(n) =~= keys);
    } else {
        assert(keys.drop_last().take(n) =~= keys.take(n));
        lemma_first_error_stands(keys.drop_last(), backends, n);
    }
}

/// Trimming the slashes at the end of an absolute URL leaves its host in place
/// and no slash at its end.
proof fn lemma_trimmed_url(url: Seq<char>, scheme: Seq<char>)
    requires
        has_host_after(url, scheme),
    ensures
        has_host_after(trim_end_of(url, '/'), scheme),
        trim_end_of(url, '/').last() != '/',
    decreases url.len(),
{
    if url.last() == '/' {
        let shorter = url.drop_last();
        assert(url.len() > scheme.len() + 1);
        assert(shorter.subrange(0, scheme.len() as int) =~= url.subrange(0, scheme.len() as int));
        lemma_trimmed_url(shorter, scheme);
    }
}

proof fn lemma_bound_routes(keys: Seq<Seq<char>>, backends: Map<Seq<char>, String>)
    requires
        bind_routes(keys, backends) is Ok,
    ensures
        bind_routes(keys, backends)->Ok_0.len() == keys.len(),
        forall|i: int|
            #![trigger bind_routes(keys, backends)->Ok_0[i]]
            0 <= i < keys.len() ==> {
                let route = bind_routes(keys, backends)->Ok_0[i];
                &&& route.prefix == keys[i]
                &&& route.backend == trim_end_of(backends[keys[i]]@, '/')
                &&& is_clean_segment(keys[i])
                &&& is_absolute_http_url(backends[keys[i]]@)
            },
    decreases keys.len(),
{
    if keys.len() > 0 {
        lemma_bound_routes(keys.drop_last(), backends);
        let routes = bind_routes(keys.drop_last(), backends)->Ok_0;
        assert forall|i: int| 0 <= i < keys.len() implies {
            let route = #[trigger] bind_routes(keys, backends)->Ok_0[i];
            &&& route.prefix == keys[i]
            &&& route.backend == trim_end_of(backends[keys[i]]@, '/')
            &&& is_clean_segment(keys[i])
            &&& is_absolute_http_url(backends[keys[i]]@)
        } by {
            if i < keys.len() - 1 {
                assert(bind_routes(keys, backends)->Ok_0[i] == routes[i]);
                assert(keys.drop_last()[i] == keys[i]);
            }
        }
    }
}

/// A configuration that passes validation is well-formed throughout: there is
/// a route, the routes stand in the order of their prefixes and no prefix
/// occurs twice, every prefix is a clean path segment, and every backend is an
/// absolute http(s) URL without a slash at its end.
pub proof fn law_valid_config_is_well_formed(config: GatewayConfig)
    requires
        increasing(config.routes.keys()),
        config.verdict() is Ok,
    ensures
        config.verdict()->Ok_0.len() > 0,
        config.verdict()->Ok_0.len() == config.routes.keys().len(),
        forall|i: int|
            #![trigger config.verdict()->Ok_0[i]]
            0 <= i < config.verdict()->Ok_0.len() ==> {
                let route = config.verdict()->Ok_0[i];
                &&& route.prefix == config.routes.keys()[i]
                &&& is_clean_segment(route.prefix)
                &&& is_absolute_http_url(route.backend)
                &&& route.backend.last() != '/'
            },
        forall|i: int, j: int|
            0 <= i < j < config.verdict()->Ok_0.len() ==> precedes(
                #[trigger] config.verdict()->Ok_0[i].prefix,
                #[trigger] config.verdict()->Ok_0[j].prefix,
            ),
{
    let keys = config.routes.keys();
    let backends = config.routes@;
    lemma_bound_routes(keys, backends);
    let routes = config.verdict()->Ok_0;
    assert forall|i: int| 0 <= i < routes.len() implies {
        let route = #[trigger] routes[i];
        &&& route.prefix == keys[i]
        &&& is_clean_segment(route.prefix)
        &&& is_absolute_http_url(route.backend)
        &&& route.backend.last() != '/'
    } by {
        assert(routes[i] == bind_routes(keys, backends)->Ok_0[i]);
        let url = backends[keys[i]]@;
        if has_host_after(url, "http://"@) {
            lemma_trimmed_url(url, "http://"@);
        } else {
            lemma_trimmed_url(url, "https://"@);
        }
    }
    assert forall|i: int, j: int| 0 <= i < j < routes.len() implies precedes(
        #[trigger] routes[i].prefix,
        #[trigger] routes[j].prefix,
    ) by {
        assert(routes[i].prefix == keys[i]);
        assert(routes[j].prefix == keys[j]);
    }
}

/// Startup refuses every configuration with a defect: a half-specified
/// external issuer, an empty route table, a zero where a positive number
/// belongs, an empty Redis URL, a prefix that is no clean segment or a backend
/// that is no absolute http(s) URL.
pub proof fn law_defects_are_refused(config: GatewayConfig)
    requires
        ({
            ||| config.auth.issuer is Some != config.auth.issuer_public_key_pem is Some
            ||| config.routes.keys().len() == 0
            ||| config.ratelimit.limit == 0
            ||| config.ratelimit.window_secs == 0
            ||| config.ratelimit.redis_url@.len() == 0
            ||| config.breaker.failure_threshold == 0
            ||| config.breaker.cooldown_secs == 0
            ||| config.breaker.timeout_secs == 0
            ||| exists|i: int|
                0 <= i < config.routes.keys().len() && {
                    ||| !is_clean_segment(#[trigger] config.routes.keys()[i])
                    ||| !is_absolute_http_url(config.routes@[config.routes.keys()[i]]@)
                }
        }),
    ensures
        config.verdict() is Err,
{
    if config.verdict() is Ok {
        lemma_bound_routes(config.routes.keys(), config.routes@);
        let i = choose|i: int|
            0 <= i < config.routes.keys().len() && {
                ||| !is_clean_segment(#[trigger] config.routes.keys()[i])
                ||| !is_absolute_http_url(config.routes@[config.routes.keys()[i]]@)
            };
        let route = bind_routes(config.routes.keys(), config.routes@)->Ok_0[i];
        assert(route.prefix == config.routes.keys()[i]);
    }
}

/// The characters of a prefix are the ASCII letters and digits.
pub proof fn law_prefixes_are_letters_and_digits(prefix: Seq<char>)
    ensures
        is_clean_segment(prefix) <==> prefix.len() > 0 && forall|i: int|
            0 <= i < prefix.len() ==> {
                ||| 48 <= #[trigger] prefix[i] as int <= 57
                ||| 65 <= prefix[i] as int <= 90
                ||| 97 <= prefix[i] as int <= 122
            },
{
    if is_clean_segment(prefix) {
        assert forall|i: int| 0 <= i < prefix.len() implies {
            ||| 48 <= #[trigger] prefix[i] as int <= 57
            ||| 65 <= prefix[i] as int <= 90
            ||| 97 <= prefix[i] as int <= 122
        } by {
            assert(is_prefix_char(prefix[i]));
        }
    }
}

/// A backend is an absolute URL if `http://` or `https://` and a host stand at its start,
/// whatever follows.
pub proof fn law_absolute_urls_name_a_host(host: char, rest: Seq<char>, url: Seq<char>)
    ensures
        host != '/' && host != '?' && host != '#' ==> is_absolute_http_url(
            "http://"@.push(host) + rest,
        ) && is_absolute_http_url("https://"@.push(host) + rest),
        is_absolute_http_url(url) ==> exists|h: char, r: Seq<char>|
            #![trigger "http://"@.push(h) + r]
            h != '/' && h != '?' && h != '#' && (url == "http://"@.push(h) + r || url
                == "https://"@.push(h) + r),
{
    let a = "http://"@.push(host) + rest;
    let b = "https://"@.push(host) + rest;
    assert(a.subrange(0, "http://"@.len() as int) =~= "http://"@);
    assert(b.subrange(0, "https://"@.len() as int) =~= "https://"@);
    if is_absolute_http_url(url) {
        let scheme = if has_host_after(url, "http://"@) { "http://"@ } else { "https://"@ };
        let n = scheme.len() as int;
        let h = url[n];
        let r = url.skip(n + 1);
        assert(url.subrange(0, n) == scheme);
        assert(url =~= scheme.push(h) + r);
        assert("http://"@.push(h) + r == "http://"@.push(h) + r);
    }
}

proof fn lemma_sound_routes(keys: Seq<Seq<char>>, backends: Map<Seq<char>, String>)
    requires
        forall|i: int|
            0 <= i < keys.len() ==> is_clean_segment(#[trigger] keys[i])
                && is_absolute_http_url(backends[keys[i]]@),
    ensures
        bind_routes(keys, backends) is Ok,
    decreases keys.len(),
{
    if keys.len() > 0 {
        assert forall|i: int| 0 <= i < keys.drop_last().len() implies is_clean_segment(
            #[trigger] keys.drop_last()[i],
        ) && is_absolute_http_url(backends[keys.drop_last()[i]]@) by {
            assert(keys.drop_last()[i] == keys[i]);
        }
        lemma_sound_routes(keys.drop_last(), backends);
        assert(is_clean_segment(keys[keys.len() - 1]));
    }
}

/// Startup accepts every configuration without a defect, however large its numbers: each
/// entry of the route table becomes a route, in the order of the table, to its backend as
/// it stands there but for the slashes at its end.
pub proof fn law_sound_configs_are_accepted(config: GatewayConfig)
    requires
        config.auth.issuer is Some <==> config.auth.issuer_public_key_pem is Some,
        config.routes.keys().len() > 0,
        config.ratelimit.limit > 0,
        config.ratelimit.window_secs > 0,
        config.ratelimit.redis_url@.len() > 0,
        config.breaker.failure_threshold > 0,
        config.breaker.cooldown_secs > 0,
        config.breaker.timeout_secs > 0,
        forall|i: int|
            0 <= i < config.routes.keys().len() ==> is_clean_segment(
                #[trigger] config.routes.keys()[i],
            ) && is_absolute_http_url(config.routes@[config.routes.keys()[i]]@),
    ensures
        config.verdict() is Ok,
        config.verdict()->Ok_0.len() == config.routes.keys().len(),
        forall|i: int|
            #![trigger config.verdict()->Ok_0[i]]
            0 <= i < config.routes.keys().len() ==> {
                let route = config.verdict()->Ok_0[i];
                let prefix = config.routes.keys()[i];
                &&& route.prefix == prefix
                &&& route.backend.last() != '/'
                &&& exists|slashes: nat|
                    config.routes@[prefix]@ == route.backend + #[trigger] run_of('/', slashes)
            },
{
    let keys = config.routes.keys();
    lemma_sound_routes(keys, config.routes@);
    lemma_bound_routes(keys, config.routes@);
    assert forall|i: int| 0 <= i < keys.len() implies {
        let route = #[trigger] config.verdict()->Ok_0[i];
        &&& route.prefix == keys[i]
        &&& route.backend.last() != '/'
        &&& exists|slashes: nat|
            config.routes@[keys[i]]@ == route.backend + #[trigger] run_of('/', slashes)
    } by {
        let url = config.routes@[keys[i]]@;
        let route = bind_routes(keys, config.routes@)->Ok_0[i];
        assert(route.backend == trim_end_of(url, '/'));
        law_trimming_takes_the_run(url, '/');
        if has_host_after(url, "http://"@) {
            lemma_trimmed_url(url, "http://"@);
        } else {
            lemma_trimmed_url(url, "https://"@);
        }
    }
}

/// The first defect is the one that is reported, each by its own error. Settings come
/// before routes.
pub proof fn law_the_first_defect_is_reported(config: GatewayConfig)
    ensures
        ({
            let verdict = config.verdict();
            if (config.auth.issuer is Some) != (config.auth.issuer_public_key_pem is Some) {
                verdict == Err::<Seq<RouteView>, _>(
                    ConfigErrorView::InvalidAuth(
                        "issuer and issuer_public_key_pem must be set together"@,
                    ),
                )
            } else if config.routes.keys().len() == 0 {
                verdict == Err::<Seq<RouteView>, _>(ConfigErrorView::NoRoutes)
            } else if config.ratelimit.limit < 1 {
                verdict == Err::<Seq<RouteView>, _>(
                    ConfigErrorView::InvalidRateLimit("limit must be at least 1"@),
                )
            } else if config.ratelimit.window_secs < 1 {
                verdict == Err::<Seq<RouteView>, _>(
                    ConfigErrorView::InvalidRateLimit("window_secs must be at least 1"@),
                )
            } else if config.ratelimit.redis_url@.len() < 1 {
                verdict == Err::<Seq<RouteView>, _>(
                    ConfigErrorView::InvalidRateLimit("redis_url must not be empty"@),
                )
            } else if config.breaker.failure_threshold < 1 {
                verdict == Err::<Seq<RouteView>, _>(
                    ConfigErrorView::InvalidBreaker("failure_threshold must be at least 1"@),
                )
            } else if config.breaker.cooldown_secs < 1 {
                verdict == Err::<Seq<RouteView>, _>(
                    ConfigErrorView::InvalidBreaker("cooldown_secs must be at least 1"@),
                )
            } else if config.breaker.timeout_secs < 1 {
                verdict == Err::<Seq<RouteView>, _>(
                    ConfigErrorView::InvalidBreaker("timeout_secs must be at least 1"@),
                )
            } else {
                verdict is Err ==> verdict->Err_0 is InvalidPrefix || verdict->Err_0
                    is InvalidBackend
            }
        }),
{
    lemma_route_errors(config.routes.keys(), config.routes@);
}

proof fn lemma_route_errors(keys: Seq<Seq<char>>, backends: Map<Seq<char>, String>)
    ensures
        bind_routes(keys, backends) is Err ==> bind_routes(keys, backends)->Err_0
            is InvalidPrefix || bind_routes(keys, backends)->Err_0 is InvalidBackend,
    decreases keys.len(),
{
    if keys.len() > 0 {
        lemma_route_errors(keys.drop_last(), backends);
    }
}

/// Where the settings are sound, the first bad entry of the route table is reported, by its
/// prefix and, if that is clean, by its backend as well.
pub proof fn law_the_first_bad_route_is_reported(config: GatewayConfig, i: int)
    requires
        config.settings_error() is None,
        0 <= i < config.routes.keys().len(),
        forall|k: int|
            0 <= k < i ==> is_clean_segment(#[trigger] config.routes.keys()[k])
                && is_absolute_http_url(config.routes@[config.routes.keys()[k]]@),
    ensures
        ({
            let prefix = config.routes.keys()[i];
            let backend = config.routes@[prefix]@;
            &&& !is_clean_segment(prefix) ==> config.verdict() == Err::<Seq<RouteView>, _>(
                ConfigErrorView::InvalidPrefix(prefix),
            )
            &&& is_clean_segment(prefix) && !is_absolute_http_url(backend) ==> config.verdict()
                == Err::<Seq<RouteView>, _>(ConfigErrorView::InvalidBackend { prefix, backend })
        }),
{
    let keys = config.routes.keys();
    let backends = config.routes@;
    let prefix = keys[i];
    let before = keys.take(i);
    assert forall|k: int| 0 <= k < before.len() implies is_clean_segment(#[trigger] before[k])
        && is_absolute_http_url(backends[before[k]]@) by {
        assert(before[k] == keys[k]);
    }
    lemma_sound_routes(before, backends);
    assert(keys.take(i + 1).drop_last() =~= before);
    assert(keys.take(i + 1).last() == prefix);
    if !is_clean_segment(prefix) || !is_absolute_http_url(backends[prefix]@) {
        lemma_first_error_stands(keys, backends, i + 1);
    }
}

/// The operator is told what is wrong, in full.
pub proof fn law_config_messages_give_the_reason(
    reason: Seq<char>,
    prefix: Seq<char>,
    backend: Seq<char>,
)
    ensures
        config_error_message(ConfigErrorView::Parse(reason)) == "config parse error: "@ + reason,
        config_error_message(ConfigErrorView::InvalidPrefix(prefix)) == "invalid route prefix "@
            + debug_text(prefix)
            + ": must be a single path segment (alphanumeric, no slashes)"@,
        config_error_message(ConfigErrorView::InvalidBackend { prefix, backend }) == "route "@
            + debug_text(prefix) + ": backend "@ + debug_text(backend)
            + " is not an absolute http(s) URL"@,
        config_error_message(ConfigErrorView::NoRoutes)
            == "no routes configured: add at least one [routes] entry"@,
        config_error_message(ConfigErrorView::InvalidAuth(reason)) == "invalid [auth] config: "@
            + reason,
        config_error_message(ConfigErrorView::InvalidRateLimit(reason))
            == "invalid [ratelimit] config: "@ + reason,
        config_error_message(ConfigErrorView::InvalidBreaker(reason))
            == "invalid [breaker] config: "@ + reason,
{
}

/// Routes are seen whole, every one of them and each in its place.
pub proof fn law_routes_are_seen_whole(routes: Seq<Route>, i: int)
    ensures
        route_views(routes).len() == routes.len(),
        0 <= i < routes.len() ==> route_views(routes)[i].prefix == routes[i].prefix@,
        0 <= i < routes.len() ==> route_views(routes)[i].backend == routes[i].backend@,
{
}

/// Configuration errors are seen as they are.
pub proof fn law_config_errors_are_seen_whole(text: String, backend: String)
    ensures
        ConfigError::Parse(text)@ == ConfigErrorView::Parse(text@),
        ConfigError::InvalidPrefix(text)@ == ConfigErrorView::InvalidPrefix(text@),
        (ConfigError::InvalidBackend { prefix: text, backend })@
            == (ConfigErrorView::InvalidBackend { prefix: text@, backend: backend@ }),
        ConfigError::NoRoutes@ == ConfigErrorView::NoRoutes,
        ConfigError::InvalidAuth(text)@ == ConfigErrorView::InvalidAuth(text@),
        ConfigError::InvalidRateLimit(text)@ == ConfigErrorView::InvalidRateLimit(text@),
        ConfigError::InvalidBreaker(text)@ == ConfigErrorView::InvalidBreaker(text@),
{
}

} // verus!
