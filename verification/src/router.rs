//! The gateway's decisions: what can happen to a request.
//!
//! A proxied request passes the bearer check (fail-closed), the rate limiter
//! (fail-open) and the circuit breaker of its backend, in that order. A rejected
//! request uses up no rate-limit budget, a request over the limit touches no
//! backend, and a request to a backend behind an open breaker fails fast.
//!
//! Sending, receiving and counting in the shared store happen elsewhere; every
//! decision here takes what came of that. The module [`crate::proxy`] takes a request
//! through them, in their order.

use vstd::prelude::*;
use vstd::string::*;

use crate::auth::{is_unix_now, unix_now};
use crate::circuit::{
    ask_breaker, inform_breaker, law_breakers_are_independent, law_streak_opens_the_breaker,
    one_per_prefix, time_between,
};
use crate::circuit::{Admit, BreakerView, Breakers, State};
use crate::codec::{
    all_plain, is_reserved_name, json_members, json_written, lemma_not_reserved, JsonMember,
};
use crate::codec::{empty_object, put_flag, write_json};
use crate::config::{route_views, Route, RouteView};
use crate::metrics::{exposition, gauge_value, law_labels_stay_bounded};
use crate::metrics::{Metrics, MetricsView, RequestTimer};
use crate::middleware_auth::{bearer_verdict, check_bearer_at};
use crate::middleware_auth::{AuthState, AuthStateView, Rejection, RejectionView};
use crate::ratelimit::{limit_key, limit_key_of, window_key};
use crate::ratelimit::{CounterReply, CounterRequest, Decision, LimiterView, RateLimiter};
use crate::reply::{Reply, ReplyView};
use crate::table::Table;
use crate::text::{borrowed, decimal_of, quoted, same_text, split_at_first, trim_start};
use crate::ratelimit::law_budget_is_shared_within_a_window;
use crate::text::{
    is_digits, law_decimal_reads_back, law_split_is_at_the_first, law_trimming_takes_the_run,
    number_of, run_of,
};
use crate::text::{
    debug_text, decimal, lemma_split_once, optional_string, optional_text, split_once,
    trim_start_of,
};
use crate::time::{Duration, Stopwatch, NANOS_PER_SEC};

verus! {

/// The largest request body that is forwarded, in bytes.
pub const MAX_BODY_BYTES: usize = 33_554_432;

/// What the gateway works with.
#[derive(Debug)]
pub struct ProxyState {
    backends: Table<String>,
    auth: Option<AuthState>,
    limiter: Option<RateLimiter>,
    breakers: Option<Breakers>,
    backend_timeout: Duration,
    metrics: Option<Metrics>,
}

/// What the gateway works with: the backend of each prefix, whom it trusts, the
/// limiter, the breakers by prefix, the timeout of a backend call in nanoseconds,
/// and the metrics.
pub struct ProxyView {
    pub backends: Map<Seq<char>, Seq<char>>,
    pub auth: Option<AuthStateView>,
    pub limiter: Option<LimiterView>,
    pub breakers: Option<Map<Seq<char>, BreakerView>>,
    pub backend_timeout: nat,
    pub metrics: Option<MetricsView>,
}

impl View for ProxyState {
    type V = ProxyView;

    closed spec fn view(&self) -> ProxyView {
        ProxyView {
            backends: self.backends@.map_values(|backend: String| backend@),
            auth: match self.auth {
                Some(auth) => Some(auth@),
                None => None,
            },
            limiter: match self.limiter {
                Some(limiter) => Some(limiter@),
                None => None,
            },
            breakers: match self.breakers {
                Some(breakers) => Some(breakers@),
                None => None,
            },
            backend_timeout: self.backend_timeout@,
            metrics: match self.metrics {
                Some(metrics) => Some(metrics@),
                None => None,
            },
        }
    }
}

/// The backends of a list of routes, by prefix. The last route of a prefix counts.
pub open spec fn backend_table(routes: Seq<RouteView>) -> Map<Seq<char>, Seq<char>>
    decreases routes.len(),
{
    if routes.len() == 0 {
        Map::empty()
    } else {
        backend_table(routes.drop_last()).insert(routes.last().prefix, routes.last().backend)
    }
}

impl ProxyState {
    /// A gateway that proxies to `routes`, with nothing in between, and waits 30
    /// seconds for a backend.
    pub fn new(routes: &Vec<Route>) -> (state: Self)
        ensures
            state@ == (ProxyView {
                backends: backend_table(route_views(routes@)),
                auth: None,
                limiter: None,
                breakers: None,
                backend_timeout: (30 * NANOS_PER_SEC) as nat,
                metrics: None,
            }),
            state.clocks() is None,
    {
        let mut backends: Table<String> = Table::new();
        let ghost views = route_views(routes@);
        let mut i: usize = 0;
        assert(backends@.map_values(|backend: String| backend@) =~= Map::empty());
        while i < routes.len()
            invariant
                i <= routes@.len(),
                views == route_views(routes@),
                backends@.map_values(|backend: String| backend@) == backend_table(
                    views.take(i as int),
                ),
            decreases routes@.len() - i,
        {
            let ghost before = backends@;
            backends.insert(routes[i].prefix.clone(), routes[i].backend.clone());
            proof {
                assert(views.take(i + 1).drop_last() =~= views.take(i as int));
                assert(backends@.map_values(|backend: String| backend@) =~= before.map_values(
                    |backend: String| backend@,
                ).insert(routes@[i as int].prefix@, routes@[i as int].backend@));
            }
            i += 1;
        }
        assert(views.take(routes@.len() as int) =~= views);
        ProxyState {
            backends,
            auth: None,
            limiter: None,
            breakers: None,
            backend_timeout: Duration::from_secs(30),
            metrics: None,
        }
    }

    /// Adds the fail-closed bearer check.
    pub fn with_auth(self, auth: AuthState) -> (state: Self)
        ensures
            state@ == (ProxyView { auth: Some(auth@), ..self@ }),
            state.clocks() == self.clocks(),
    {
        ProxyState { auth: Some(auth), ..self }
    }

    /// Adds the fail-open rate limiter.
    pub fn with_limiter(self, limiter: RateLimiter) -> (state: Self)
        ensures
            state@ == (ProxyView { limiter: Some(limiter@), ..self@ }),
            state.clocks() == self.clocks(),
    {
        ProxyState { limiter: Some(limiter), ..self }
    }

    /// Adds circuit breakers, and sets how long a backend is waited for. A call
    /// that takes longer is a failure for the breaker.
    pub fn with_breakers(self, breakers: Breakers, timeout_secs: u64) -> (state: Self)
        ensures
            state@ == (ProxyView {
                breakers: Some(breakers@),
                backend_timeout: (timeout_secs * NANOS_PER_SEC) as nat,
                ..self@
            }),
            state.clocks() == Some(breakers.clocks()),
    {
        ProxyState {
            breakers: Some(breakers),
            backend_timeout: Duration::from_secs(timeout_secs),
            ..self
        }
    }

    /// Adds the metrics registry.
    pub fn with_metrics(self, metrics: Metrics) -> (state: Self)
        ensures
            state@ == (ProxyView { metrics: Some(metrics@), ..self@ }),
            state.clocks() == self.clocks(),
    {
        ProxyState { metrics: Some(metrics), ..self }
    }

    /// The backend of `prefix`.
    pub fn backend_for(&self, prefix: &str) -> (backend: Option<&str>)
        ensures
            match backend {
                Some(backend) => self@.backends.contains_key(prefix@) && self@.backends[prefix@]
                    == backend@,
                None => !self@.backends.contains_key(prefix@),
            },
    {
        match self.backends.get(prefix) {
            Some(backend) => Some(backend.as_str()),
            None => None,
        }
    }

    /// How long a backend is waited for.
    pub fn backend_timeout(&self) -> (timeout: Duration)
        ensures
            timeout@ == self@.backend_timeout,
    {
        self.backend_timeout
    }
}

/// What happens to a request that has just come in.
#[derive(Debug)]
pub enum Screening {
    /// It is rejected.
    Reject(Rejection),
    /// It is to be counted before it may go on, on behalf of a verified subject if
    /// there is one.
    Count(Option<String>, CounterRequest),
    /// It may go on, on behalf of a verified subject if there is one.
    Pass(Option<String>),
}

/// What happens to a request that has just come in, by its characters.
pub enum ScreeningView {
    Reject(RejectionView),
    Count { subject: Option<Seq<char>>, key: Seq<char>, expire_secs: nat },
    Pass(Option<Seq<char>>),
}

impl View for Screening {
    type V = ScreeningView;

    open spec fn view(&self) -> ScreeningView {
        match self {
            Screening::Reject(rejection) => ScreeningView::Reject(rejection@),
            Screening::Count(subject, request) => ScreeningView::Count {
                subject: optional_string(*subject),
                key: request.key@,
                expire_secs: request.expire_secs as nat,
            },
            Screening::Pass(subject) => ScreeningView::Pass(optional_string(*subject)),
        }
    }
}

/// The address that a client is limited by; clients whose address is not known
/// share one.
pub open spec fn address_of(client_ip: Option<Seq<char>>) -> Seq<char> {
    match client_ip {
        Some(ip) => ip,
        None => "unkeyed"@,
    }
}

impl ProxyView {
    /// What follows for a request that has passed the bearer check.
    pub open spec fn admitted(
        self,
        subject: Option<Seq<char>>,
        client_ip: Option<Seq<char>>,
        now: u64,
    ) -> ScreeningView {
        match self.limiter {
            Some(limiter) => ScreeningView::Count {
                subject,
                key: window_key(
                    limiter.key_prefix,
                    limit_key_of(subject, address_of(client_ip)),
                    limiter.window_at(now),
                ),
                expire_secs: limiter.window_secs,
            },
            None => ScreeningView::Pass(subject),
        }
    }

    /// What happens to a request that comes in at `now`.
    pub open spec fn screened(
        self,
        authorization: Option<Seq<char>>,
        client_ip: Option<Seq<char>>,
        now: u64,
    ) -> ScreeningView {
        match self.auth {
            Some(auth) => match bearer_verdict(auth, authorization, now) {
                Ok(subject) => self.admitted(Some(subject), client_ip, now),
                Err(rejection) => ScreeningView::Reject(rejection),
            },
            None => self.admitted(None, client_ip, now),
        }
    }
}

/// The prefix in a request path, and the path that the backend is asked for: slashes
/// at the start do not count, and the prefix ends at the next one.
pub open spec fn route_path(path: Seq<char>) -> (Seq<char>, Seq<char>) {
    let trimmed = trim_start_of(path, '/');
    match split_once(trimmed, '/') {
        Some((prefix, rest)) => (prefix, "/"@ + rest),
        None => (trimmed, "/"@),
    }
}

/// The prefix in a request path, and the path that the backend is asked for.
pub fn split_path(path: &str) -> (parts: (String, String))
    ensures
        (parts.0@, parts.1@) == route_path(path@),
{
    let trimmed = trim_start(path, '/');
    match split_at_first(trimmed.as_str(), '/') {
        Some((prefix, rest)) => (prefix, "/".to_owned().concat(rest.as_str())),
        None => (trimmed, "/".to_owned()),
    }
}

/// The reply to a request over the limit.
pub open spec fn limited_reply(retry_after: u64) -> ReplyView {
    ReplyView::with_header(
        429,
        "retry-after"@,
        decimal(retry_after as nat),
        "rate limit exceeded"@,
    )
}

/// An optional reply by its characters.
pub open spec fn optional_reply(reply: Option<Reply>) -> Option<ReplyView> {
    match reply {
        Some(reply) => Some(reply@),
        None => None,
    }
}

impl ProxyView {
    /// The gateway after the limiter rejected a request to `prefix`. Only prefixes of
    /// the route table are counted: nobody can grow the metrics by asking for
    /// others.
    pub open spec fn limited(self, prefix: Seq<char>) -> ProxyView {
        match self.metrics {
            Some(metrics) => if self.backends.contains_key(prefix) {
                ProxyView { metrics: Some(metrics.rate_limited(prefix)), ..self }
            } else {
                self
            },
            None => self,
        }
    }

    /// What follows from the store's reply: the gateway afterwards, and the reply to
    /// the request if it may not go on.
    pub open spec fn counted(self, path: Seq<char>, reply: CounterReply) -> (
        ProxyView,
        Option<ReplyView>,
    ) {
        match self.limiter {
            Some(limiter) => {
                let after = ProxyView { limiter: Some(limiter.after(reply)), ..self };
                match limiter.decision(reply) {
                    Decision::Limit(retry_after) => (
                        after.limited(route_path(path).0),
                        Some(limited_reply(retry_after)),
                    ),
                    _ => (after, None),
                }
            },
            None => (self, None),
        }
    }
}

impl ProxyState {
    fn admit_subject(&self, subject: Option<String>, client_ip: Option<&str>, now_unix: u64) -> (
        screening: Screening)
        ensures
            screening@ == self@.admitted(
                optional_string(subject),
                optional_text(client_ip),
                now_unix,
            ),
    {
        match &self.limiter {
            Some(limiter) => {
                let address = match client_ip {
                    Some(ip) => ip,
                    None => "unkeyed",
                };
                let key = limit_key(borrowed(&subject), address);
                let request = limiter.counter(key.as_str(), now_unix);
                Screening::Count(subject, request)
            },
            None => Screening::Pass(subject),
        }
    }

    /// Decides on a request that comes in at `now_unix`: whether it passes the bearer
    /// check, and what to count before it may go on. Nothing has been counted yet.
    pub fn screen_at(
        &self,
        authorization: Option<&str>,
        client_ip: Option<&str>,
        now_unix: u64,
    ) -> (screening: Screening)
        ensures
            screening@ == self@.screened(
                optional_text(authorization),
                optional_text(client_ip),
                now_unix,
            ),
    {
        match &self.auth {
            Some(auth) => match check_bearer_at(auth, authorization, now_unix) {
                Ok(subject) => self.admit_subject(Some(subject), client_ip, now_unix),
                Err(rejection) => Screening::Reject(rejection),
            },
            None => self.admit_subject(None, client_ip, now_unix),
        }
    }

    /// Decides on a request that comes in now.
    pub fn screen(&self, authorization: Option<&str>, client_ip: Option<&str>) -> (screening:
        Screening)
        ensures
            exists|now: u64|
                is_unix_now(now) && screening@ == #[trigger] self@.screened(
                    optional_text(authorization),
                    optional_text(client_ip),
                    now,
                ),
    {
        let now: u64 = unix_now();
        let screening = self.screen_at(authorization, client_ip, now);
        assert(screening@ == self@.screened(
            optional_text(authorization),
            optional_text(client_ip),
            now,
        ));
        screening
    }

    /// Decides on a request by what the store answered: a reply if it may not go on.
    pub fn count(&mut self, path: &str, reply: CounterReply) -> (rejected: Option<Reply>)
        ensures
            (final(self)@, optional_reply(rejected)) == old(self)@.counted(path@, reply),
            final(self).clocks() == old(self).clocks(),
    {
        let decision = match &mut self.limiter {
            Some(limiter) => limiter.decide(reply),
            None => {
                return None;
            },
        };
        match decision {
            Decision::Limit(retry_after) => {
                let (prefix, _) = split_path(path);
                let known = self.backend_for(prefix.as_str()).is_some();
                if known {
                    if let Some(metrics) = &mut self.metrics {
                        metrics.inc_rate_limited(prefix.as_str());
                    }
                }
                Some(
                    Reply::with_header(
                        429,
                        "retry-after",
                        decimal_of(retry_after),
                        "rate limit exceeded".to_owned(),
                    ),
                )
            },
            _ => None,
        }
    }
}

/// A call to a backend that is to be made. Whoever holds one makes the call and then hands
/// it back with what came of it; there is no copying it.
#[derive(Debug)]
pub struct BackendCall {
    prefix: String,
    target: String,
    timer: Option<RequestTimer>,
}

/// A call to a backend: the prefix that it is made on behalf of, the URL that is asked for,
/// and the prefix that it is timed under, if it is timed.
pub struct CallView {
    pub prefix: Seq<char>,
    pub target: Seq<char>,
    pub timed: Option<Seq<char>>,
}

impl View for BackendCall {
    type V = CallView;

    closed spec fn view(&self) -> CallView {
        CallView {
            prefix: self.prefix@,
            target: self.target@,
            timed: timed_prefix(self.timer),
        }
    }
}

impl BackendCall {
    /// The call is timed, if at all, from a moment on that was read off the system's clock.
    pub closed spec fn is_timed_from_now(&self) -> bool {
        self.timer is Some ==> self.timer->0.stopwatch().is_started_now()
    }

    /// What can be read off the stopwatch of the call; zero where it is not timed.
    pub closed spec fn stopwatch_shows(&self, nanos: nat) -> bool {
        match self.timer {
            Some(timer) => timer.stopwatch().shows(nanos),
            None => nanos == 0,
        }
    }

    /// The prefix that the call is made on behalf of.
    pub fn prefix(&self) -> (prefix: &str)
        ensures
            prefix@ == self@.prefix,
    {
        self.prefix.as_str()
    }

    /// The time since the call was begun; zero where it is not timed.
    pub fn elapsed(&self) -> (elapsed: Duration)
        ensures
            self.stopwatch_shows(elapsed@),
    {
        match &self.timer {
            Some(timer) => timer.elapsed(),
            None => Duration::from_secs(0),
        }
    }

    /// The URL to ask for.
    pub fn target(&self) -> (target: &str)
        ensures
            target@ == self@.target,
    {
        self.target.as_str()
    }
}

/// What came of a call to a backend.
#[derive(Debug, Clone, Copy, PartialEq, Eq, Structural)]
pub enum CallOutcome {
    /// The backend could not be reached, or its answer did not arrive in full in time.
    Failed,
    /// The backend answered with this status, and the whole answer is there.
    Answered(u16),
}

/// What happens to a request that may go on.
#[derive(Debug)]
pub enum Dispatch {
    /// It is answered right away.
    Respond(Reply),
    /// It is forwarded.
    Forward(BackendCall),
}

/// What happens to a request that may go on, by its characters.
pub enum DispatchView {
    Respond(ReplyView),
    Forward(CallView),
}

impl View for Dispatch {
    type V = DispatchView;

    open spec fn view(&self) -> DispatchView {
        match self {
            Dispatch::Respond(reply) => DispatchView::Respond(reply@),
            Dispatch::Forward(call) => DispatchView::Forward(call@),
        }
    }
}

/// The query as it stands in a URL.
pub open spec fn query_part(query: Option<Seq<char>>) -> Seq<char> {
    match query {
        Some(query) => "?"@ + query,
        None => Seq::empty(),
    }
}

/// The reply to a request that no route serves.
pub open spec fn no_route_reply(prefix: Seq<char>) -> ReplyView {
    ReplyView::text(404, "no route for prefix "@ + debug_text(prefix))
}

/// The reply to a request whose backend is behind an open breaker.
pub open spec fn circuit_open_reply(prefix: Seq<char>) -> ReplyView {
    ReplyView::with_header(
        503,
        "retry-after"@,
        "5"@,
        "backend "@ + debug_text(prefix) + " unavailable (circuit open)"@,
    )
}

/// The reply to a request whose backend could not be reached.
pub open spec fn unreachable_reply(prefix: Seq<char>) -> ReplyView {
    ReplyView::text(502, "backend "@ + debug_text(prefix) + " unreachable"@)
}

impl ProxyView {
    /// Asking the breaker of `prefix` at `now`, if there is one: the gateway
    /// afterwards, and the answer.
    pub open spec fn asked(self, prefix: Seq<char>, now: nat) -> (ProxyView, Admit) {
        match self.breakers {
            Some(breakers) => {
                let (after, answer) = ask_breaker(breakers, prefix, now);
                (ProxyView { breakers: Some(after), ..self }, answer)
            },
            None => (self, Admit::Call),
        }
    }

    /// The gateway after it turned a request to `prefix` away because of an open
    /// breaker.
    pub open spec fn short_circuited(self, prefix: Seq<char>) -> ProxyView {
        match self.metrics {
            Some(metrics) => ProxyView {
                metrics: Some(metrics.circuit_opened(prefix)),
                ..self
            },
            None => self,
        }
    }

    /// The prefix that a call on behalf of `prefix` is timed under, where there is a
    /// registry to record it in.
    pub open spec fn timer_for(self, prefix: Seq<char>) -> Option<Seq<char>> {
        match self.metrics {
            Some(_) => Some(prefix),
            None => None,
        }
    }

    /// What happens at `now` to a request that may go on: the gateway afterwards, and
    /// the next step.
    pub open spec fn dispatched(
        self,
        path: Seq<char>,
        query: Option<Seq<char>>,
        now: nat,
    ) -> (ProxyView, DispatchView) {
        let (prefix, suffix) = route_path(path);
        if prefix.len() == 0 {
            (self, DispatchView::Respond(ReplyView::text(404, "not found"@)))
        } else if !self.backends.contains_key(prefix) {
            (self, DispatchView::Respond(no_route_reply(prefix)))
        } else {
            match self.asked(prefix, now) {
                (after, Admit::ShortCircuit) => (
                    after.short_circuited(prefix),
                    DispatchView::Respond(circuit_open_reply(prefix)),
                ),
                (after, Admit::Call) => (
                    after,
                    DispatchView::Forward(
                        CallView {
                            prefix,
                            target: self.backends[prefix] + suffix + query_part(query),
                            timed: self.timer_for(prefix),
                        },
                    ),
                ),
            }
        }
    }

    /// Whether a request is answered at `now` without a call: the gateway afterwards, and the
    /// reply. A request that would be forwarded changes nothing.
    pub open spec fn turned_away(self, path: Seq<char>, now: nat) -> (
        ProxyView,
        Option<ReplyView>,
    ) {
        match self.dispatched(path, None, now) {
            (after, DispatchView::Respond(reply)) => (after, Some(reply)),
            (_, DispatchView::Forward(_)) => (self, None),
        }
    }

    /// What follows from the outcome of a call at `now`, `nanos` nanoseconds after it was
    /// begun: the gateway afterwards, and the reply to the request unless that is the
    /// backend's own answer.
    pub open spec fn concluded(
        self,
        call: CallView,
        outcome: CallOutcome,
        now: nat,
        nanos: nat,
    ) -> (ProxyView, Option<ReplyView>) {
        match outcome {
            CallOutcome::Failed => (
                self.recorded(call.prefix, false, now).timed(call.timed, "5xx"@, nanos),
                Some(unreachable_reply(call.prefix)),
            ),
            CallOutcome::Answered(status) => (
                self.recorded(call.prefix, true, now).timed(
                    call.timed,
                    status_class_of(status),
                    nanos,
                ),
                None,
            ),
        }
    }

    /// The gateway after the outcome of a call to the backend of `prefix` was reported
    /// to its breaker at `now`.
    pub open spec fn recorded(self, prefix: Seq<char>, success: bool, now: nat) -> ProxyView {
        match self.breakers {
            Some(breakers) => ProxyView {
                breakers: Some(inform_breaker(breakers, prefix, success, now)),
                ..self
            },
            None => self,
        }
    }

    /// The gateway after a timed request to `timed`, if any, ended with `class` after
    /// `nanos` nanoseconds.
    pub open spec fn timed(
        self,
        timed: Option<Seq<char>>,
        class: Seq<char>,
        nanos: nat,
    ) -> ProxyView {
        match (self.metrics, timed) {
            (Some(metrics), Some(prefix)) => ProxyView {
                metrics: Some(metrics.finished(prefix, Some(class), nanos)),
                ..self
            },
            _ => self,
        }
    }
}

/// The class of a status code, from `1xx` to `9xx`.
pub open spec fn status_class_of(status: u16) -> Seq<char> {
    decimal((status / 100) as nat) + "xx"@
}

/// The class of a status code. Metrics are labelled with it rather than with the code,
/// so that the number of labels does not depend on the codes that backends use.
pub fn status_class(status: u16) -> (class: String)
    ensures
        class@ == status_class_of(status),
{
    decimal_of((status / 100) as u64).concat("xx")
}

/// The prefix that a timer, if there is one, is for.
pub open spec fn timed_prefix(timer: Option<RequestTimer>) -> Option<Seq<char>> {
    match timer {
        Some(timer) => Some(timer.prefix()),
        None => None,
    }
}

impl ProxyState {
    /// The time on the clock of the breaker of `prefix`; zero where there is none.
    pub fn breaker_clock(&self, prefix: &str) -> (now: Duration)
        ensures
            self.clock_shows(prefix@, now@),
    {
        match &self.breakers {
            Some(breakers) => breakers.now(prefix),
            None => Duration::from_secs(0),
        }
    }

    /// The clocks of the breakers. No step changes them.
    pub closed spec fn clocks(&self) -> Option<Map<Seq<char>, Stopwatch>> {
        match self.breakers {
            Some(breakers) => Some(breakers.clocks()),
            None => None,
        }
    }

    /// What can be read off the clock of the breaker of `prefix`; zero where there is none.
    pub open spec fn clock_shows(&self, prefix: Seq<char>, now: nat) -> bool {
        if self@.breakers is Some && self@.breakers->0.contains_key(prefix) {
            self.clocks()->0[prefix].shows(now)
        } else {
            now == 0
        }
    }

    /// Answers a request at `now`, on the clock of the breaker of its backend, if it can be
    /// answered without a call: nothing serves its path, or the breaker is open. No
    /// breaker changes, so that the body of the request can be read before it is
    /// dispatched, and nothing is pending if that fails.
    pub fn turn_away_at(&mut self, path: &str, now: Duration) -> (reply: Option<Reply>)
        ensures
            (final(self)@, optional_reply(reply)) == old(self)@.turned_away(path@, now@),
            final(self).clocks() == old(self).clocks(),
    {
        let (prefix, _) = split_path(path);
        if prefix.as_str().is_empty() {
            return Some(Reply::text(404, "not found".to_owned()));
        }
        if self.backend_for(prefix.as_str()).is_none() {
            let body = "no route for prefix ".to_owned().concat(quoted(prefix.as_str()).as_str());
            return Some(Reply::text(404, body));
        }
        let answer = match &self.breakers {
            Some(breakers) => breakers.would_admit_at(prefix.as_str(), now),
            None => Admit::Call,
        };
        match answer {
            Admit::ShortCircuit => {
                if let Some(metrics) = &mut self.metrics {
                    metrics.inc_circuit_open(prefix.as_str());
                }
                proof {
                    let breakers = old(self)@.breakers->0;
                    assert(ask_breaker(breakers, prefix@, now@).0 =~= breakers);
                }
                let body = "backend ".to_owned().concat(quoted(prefix.as_str()).as_str()).concat(
                    " unavailable (circuit open)",
                );
                Some(Reply::with_header(503, "retry-after", "5".to_owned(), body))
            },
            Admit::Call => None,
        }
    }

    /// Answers a request now, by the clock of the breaker of its backend, if it can be
    /// answered without a call.
    pub fn turn_away(&mut self, path: &str) -> (reply: Option<Reply>)
        ensures
            exists|now: nat|
                old(self).clock_shows(route_path(path@).0, now) && (
                    final(self)@,
                    optional_reply(reply),
                ) == #[trigger] old(self)@.turned_away(path@, now),
            final(self).clocks() == old(self).clocks(),
    {
        let (prefix, _) = split_path(path);
        let now = self.breaker_clock(prefix.as_str());
        let reply = self.turn_away_at(path, now);
        assert((self@, optional_reply(reply)) == old(self)@.turned_away(path@, now@));
        reply
    }

    fn start_timer(&self, prefix: &str) -> (timer: Option<RequestTimer>)
        ensures
            timed_prefix(timer) == self@.timer_for(prefix@),
            timer is Some ==> timer->0.stopwatch().is_started_now(),
    {
        match &self.metrics {
            Some(metrics) => Some(metrics.start_request(prefix)),
            None => None,
        }
    }

    /// Decides at `now`, on the clock of the breaker that is asked, where a request that
    /// may go on goes: the reply to it, or the call to make for it. The call is timed
    /// from here on, and must be handed back to [`ProxyState::conclude`].
    pub fn dispatch_at(&mut self, path: &str, query: Option<&str>, now: Duration) -> (next:
        Dispatch)
        ensures
            (final(self)@, next@) == old(self)@.dispatched(path@, optional_text(query), now@),
            next matches Dispatch::Forward(call) ==> call.is_timed_from_now(),
            final(self).clocks() == old(self).clocks(),
    {
        if let Some(reply) = self.turn_away_at(path, now) {
            return Dispatch::Respond(reply);
        }
        let (prefix, suffix) = split_path(path);
        let mut target = match self.backend_for(prefix.as_str()) {
            Some(backend) => backend.to_owned(),
            None => String::new(),
        };
        target.append(suffix.as_str());
        if let Some(query) = query {
            target.append("?");
            target.append(query);
        }
        assert(target@ =~= old(self)@.backends[prefix@] + suffix@ + query_part(
            optional_text(query),
        ));
        if let Some(breakers) = &mut self.breakers {
            breakers.try_admit_at(prefix.as_str(), now);
        }
        let timer = self.start_timer(prefix.as_str());
        Dispatch::Forward(BackendCall { prefix, target, timer })
    }

    /// Decides, by the clock of the breaker that is asked, where a request that may go on
    /// goes now.
    pub fn dispatch(&mut self, path: &str, query: Option<&str>) -> (next: Dispatch)
        ensures
            exists|now: nat|
                old(self).clock_shows(route_path(path@).0, now) && (final(self)@, next@)
                    == #[trigger] old(self)@.dispatched(path@, optional_text(query), now),
            next matches Dispatch::Forward(call) ==> call.is_timed_from_now(),
            final(self).clocks() == old(self).clocks(),
    {
        let (prefix, _) = split_path(path);
        let now = self.breaker_clock(prefix.as_str());
        let next = self.dispatch_at(path, query, now);
        assert((self@, next@) == old(self)@.dispatched(path@, optional_text(query), now@));
        next
    }

    fn report_at(&mut self, prefix: &str, success: bool, now: Duration)
        ensures
            final(self)@ == old(self)@.recorded(prefix@, success, now@),
            final(self).clocks() == old(self).clocks(),
    {
        if let Some(breakers) = &mut self.breakers {
            breakers.record_at(prefix, success, now);
        }
    }

    fn stop_timer(&mut self, timer: Option<RequestTimer>, class: &str, elapsed: Duration)
        ensures
            final(self)@ == old(self)@.timed(timed_prefix(timer), class@, elapsed@),
            final(self).clocks() == old(self).clocks(),
    {
        if let Some(timer) = timer {
            if let Some(metrics) = &mut self.metrics {
                timer.finish_after(metrics, Some(class), elapsed);
            }
        }
    }
}

/// The reply to a request whose body could not be read.
pub open spec fn unreadable_body_reply() -> ReplyView {
    ReplyView::text(400, "failed to read request body"@)
}

impl ProxyState {
    /// Answers a request whose body could not be read, or is too large. Nothing has been
    /// asked of a breaker for it.
    pub fn unreadable_body(&self) -> (reply: Reply)
        ensures
            reply@ == unreadable_body_reply(),
    {
        Reply::text(400, "failed to read request body".to_owned())
    }

    /// Takes note at `now`, on the clock of the breaker, of what came of a call, `elapsed`
    /// after it was begun, and answers the request if the backend did not. Only failures
    /// to reach a backend count against it: one that answers is up, whatever the status.
    pub fn conclude_at(
        &mut self,
        call: BackendCall,
        outcome: CallOutcome,
        now: Duration,
        elapsed: Duration,
    ) -> (reply: Option<Reply>)
        ensures
            (final(self)@, optional_reply(reply)) == old(self)@.concluded(
                call@,
                outcome,
                now@,
                elapsed@,
            ),
            final(self).clocks() == old(self).clocks(),
    {
        let BackendCall { prefix, target: _, timer } = call;
        match outcome {
            CallOutcome::Failed => {
                self.report_at(prefix.as_str(), false, now);
                self.stop_timer(timer, "5xx", elapsed);
                let body = "backend ".to_owned().concat(quoted(prefix.as_str()).as_str()).concat(
                    " unreachable",
                );
                Some(Reply::text(502, body))
            },
            CallOutcome::Answered(status) => {
                let class = status_class(status);
                self.report_at(prefix.as_str(), true, now);
                self.stop_timer(timer, class.as_str(), elapsed);
                None
            },
        }
    }

    /// Takes note now, by the clock of the breaker and the stopwatch of the call, of what
    /// came of a call, and answers the request if the backend did not.
    pub fn conclude(&mut self, call: BackendCall, outcome: CallOutcome) -> (reply: Option<Reply>)
        ensures
            exists|now: nat, nanos: nat|
                old(self).clock_shows(call@.prefix, now) && call.stopwatch_shows(nanos) && (
                    final(self)@,
                    optional_reply(reply),
                ) == #[trigger] old(self)@.concluded(call@, outcome, now, nanos),
            final(self).clocks() == old(self).clocks(),
    {
        let now = self.breaker_clock(call.prefix.as_str());
        let elapsed = call.elapsed();
        let ghost view = call@;
        let reply = self.conclude_at(call, outcome, now, elapsed);
        assert((self@, optional_reply(reply)) == old(self)@.concluded(
            view,
            outcome,
            now@,
            elapsed@,
        ));
        reply
    }
}

/// A header that concerns a single connection only, and that a proxy must not forward.
pub open spec fn is_hop_by_hop(name: Seq<char>) -> bool {
    ||| name == "connection"@
    ||| name == "keep-alive"@
    ||| name == "proxy-authenticate"@
    ||| name == "proxy-authorization"@
    ||| name == "te"@
    ||| name == "trailers"@
    ||| name == "transfer-encoding"@
    ||| name == "upgrade"@
}

/// Whether a header, by its name in lower case, concerns a single connection only.
pub fn is_hop_by_hop_name(name: &str) -> (hop_by_hop: bool)
    ensures
        hop_by_hop == is_hop_by_hop(name@),
{
    same_text(name, "connection") || same_text(name, "keep-alive") || same_text(
        name,
        "proxy-authenticate",
    ) || same_text(name, "proxy-authorization") || same_text(name, "te") || same_text(
        name,
        "trailers",
    ) || same_text(name, "transfer-encoding") || same_text(name, "upgrade")
}

/// Headers with values of bytes, by their characters.
pub open spec fn raw_header_views(headers: Seq<(String, Vec<u8>)>) -> Seq<(Seq<char>, Seq<u8>)> {
    headers.map_values(|header: (String, Vec<u8>)| (header.0@, header.1@))
}

/// The headers of a response that are forwarded to the client: all but the hop-by-hop
/// ones, in their order.
pub open spec fn forwarded(headers: Seq<(Seq<char>, Seq<u8>)>) -> Seq<(Seq<char>, Seq<u8>)> {
    headers.filter(|header: (Seq<char>, Seq<u8>)| !is_hop_by_hop(header.0))
}

/// A header value that is text: visible ASCII characters, spaces and tabs.
pub open spec fn is_text_value(value: Seq<u8>) -> bool {
    forall|i: int| 0 <= i < value.len() ==> 32 <= #[trigger] value[i] < 127 || value[i] == 9
}

/// Whether a header value is text: visible ASCII characters, spaces and tabs.
pub fn text_value(value: &Vec<u8>) -> (text: bool)
    ensures
        text == is_text_value(value@),
{
    let mut i: usize = 0;
    while i < value.len()
        invariant
            i <= value@.len(),
            forall|k: int| 0 <= k < i ==> 32 <= #[trigger] value@[k] < 127 || value@[k] == 9,
        decreases value@.len() - i,
    {
        let byte: u8 = value[i];
        if !((32 <= byte && byte < 127) || byte == 9) {
            assert(value@[i as int] == byte);
            return false;
        }
        i += 1;
    }
    true
}

/// The headers of a request that are forwarded to the backend: all but the hop-by-hop ones
/// and those whose value is no text, in their order.
pub open spec fn forwarded_in_request(headers: Seq<(Seq<char>, Seq<u8>)>) -> Seq<
    (Seq<char>, Seq<u8>),
> {
    headers.filter(
        |header: (Seq<char>, Seq<u8>)| !is_hop_by_hop(header.0) && is_text_value(header.1),
    )
}

/// The headers of a request that are forwarded to the backend: all but the hop-by-hop ones
/// and those whose value is no text, in their order.
pub fn request_headers(headers: &Vec<(String, Vec<u8>)>) -> (kept: Vec<(String, Vec<u8>)>)
    ensures
        raw_header_views(kept@) == forwarded_in_request(raw_header_views(headers@)),
{
    let ghost views = raw_header_views(headers@);
    let mut kept: Vec<(String, Vec<u8>)> = Vec::new();
    let mut i: usize = 0;
    assert(raw_header_views(kept@) =~= forwarded_in_request(views.take(0))) by {
        reveal(Seq::filter);
    }
    while i < headers.len()
        invariant
            i <= headers@.len(),
            views == raw_header_views(headers@),
            raw_header_views(kept@) == forwarded_in_request(views.take(i as int)),
        decreases headers@.len() - i,
    {
        let ghost before = kept@;
        let (name, value) = &headers[i];
        if !is_hop_by_hop_name(name.as_str()) && text_value(value) {
            let copy = value.clone();
            assert(copy@ =~= value@);
            kept.push((name.clone(), copy));
            assert(raw_header_views(kept@) =~= raw_header_views(before).push(views[i as int]));
        }
        proof {
            reveal(Seq::filter);
            assert(views.take(i + 1).drop_last() =~= views.take(i as int));
        }
        i += 1;
    }
    assert(views.take(headers@.len() as int) =~= views);
    kept
}

/// The headers of a response that are forwarded to the client: all but the hop-by-hop
/// ones, in their order.
pub fn end_to_end_headers(headers: &Vec<(String, Vec<u8>)>) -> (kept: Vec<(String, Vec<u8>)>)
    ensures
        raw_header_views(kept@) == forwarded(raw_header_views(headers@)),
{
    let ghost views = raw_header_views(headers@);
    let mut kept: Vec<(String, Vec<u8>)> = Vec::new();
    let mut i: usize = 0;
    assert(raw_header_views(kept@) =~= forwarded(views.take(0))) by {
        reveal(Seq::filter);
    }
    while i < headers.len()
        invariant
            i <= headers@.len(),
            views == raw_header_views(headers@),
            raw_header_views(kept@) == forwarded(views.take(i as int)),
        decreases headers@.len() - i,
    {
        let ghost before = kept@;
        let (name, value) = &headers[i];
        if !is_hop_by_hop_name(name.as_str()) {
            let copy = value.clone();
            assert(copy@ =~= value@);
            kept.push((name.clone(), copy));
            assert(raw_header_views(kept@) =~= raw_header_views(before).push(views[i as int]));
        }
        proof {
            reveal(Seq::filter);
            assert(views.take(i + 1).drop_last() =~= views.take(i as int));
        }
        i += 1;
    }
    assert(views.take(headers@.len() as int) =~= views);
    kept
}

/// The name that readiness reports a backend under.
pub open spec fn component_name(prefix: Seq<char>) -> Seq<char> {
    "backend:"@ + prefix
}

/// The backends among the components: each is well while its breaker is closed.
pub open spec fn backend_components(breakers: Map<Seq<char>, BreakerView>) -> Map<
    Seq<char>,
    JsonMember,
> {
    Map::new(
        |name: Seq<char>|
            exists|prefix: Seq<char>| #[trigger]
                breakers.contains_key(prefix) && name == component_name(prefix),
        |name: Seq<char>|
            JsonMember::Flag(
                breakers[name.skip("backend:"@.len() as int)].state == State::Closed,
            ),
    )
}

impl ProxyView {
    /// Whether every breaker is closed.
    pub open spec fn all_closed(self) -> bool {
        match self.breakers {
            Some(breakers) => forall|prefix: Seq<char>| #[trigger]
                breakers.contains_key(prefix) ==> breakers[prefix].state == State::Closed,
            None => true,
        }
    }

    /// Whether the gateway can do its job, given whether the store answers.
    pub open spec fn ready(self, store_answers: bool) -> bool {
        self.all_closed() && (self.limiter is Some ==> store_answers)
    }

    /// The components that readiness reports, and whether each is well.
    pub open spec fn components(self, store_answers: bool) -> Map<Seq<char>, JsonMember> {
        let backends = match self.breakers {
            Some(breakers) => backend_components(breakers),
            None => Map::empty(),
        };
        if self.limiter is Some {
            backends.insert("redis"@, JsonMember::Flag(store_answers))
        } else {
            backends
        }
    }

    /// What a readiness probe is answered.
    pub open spec fn readiness(self, store_answers: bool) -> ReplyView {
        ReplyView::with_header(
            if self.ready(store_answers) {
                200
            } else {
                503
            },
            "content-type"@,
            "application/json"@,
            json_written(self.components(store_answers)),
        )
    }

    /// The gateway after the state of every breaker was published in the metrics.
    pub open spec fn published(self) -> ProxyView {
        match (self.metrics, self.breakers) {
            (Some(metrics), Some(breakers)) => ProxyView {
                metrics: Some(
                    MetricsView {
                        breaker_state: metrics.breaker_state.union_prefer_right(
                            breakers.map_values(
                                |breaker: BreakerView| gauge_value(breaker.state),
                            ),
                        ),
                        ..metrics
                    },
                ),
                ..self
            },
            _ => self,
        }
    }

    /// What a scrape is answered.
    pub open spec fn scrape(self) -> ReplyView {
        ReplyView::with_header(
            200,
            "content-type"@,
            "text/plain; version=0.0.4; charset=utf-8"@,
            match self.published().metrics {
                Some(metrics) => exposition(metrics),
                None => Seq::empty(),
            },
        )
    }
}

/// Answers a liveness probe: the process can serve.
pub fn healthz() -> (reply: Reply)
    ensures
        reply@ == ReplyView::text(200, Seq::empty()),
{
    Reply::text(200, String::new())
}

proof fn lemma_component_names(a: Seq<char>, b: Seq<char>)
    ensures
        component_name(a) == component_name(b) ==> a == b,
        component_name(a).skip("backend:"@.len() as int) == a,
{
    assert(component_name(a).skip("backend:"@.len() as int) =~= a);
    assert(component_name(b).skip("backend:"@.len() as int) =~= b);
}

impl ProxyState {
    /// Whether readiness depends on the store, so that it has to be asked.
    pub fn uses_store(&self) -> (uses: bool)
        ensures
            uses == (self@.limiter is Some),
    {
        self.limiter.is_some()
    }

    /// Answers a readiness probe, given whether the store answers: 200 while every
    /// breaker is closed and the store answers, 503 otherwise, and the health of
    /// each component either way.
    pub fn readyz(&self, store_answers: bool) -> (reply: Reply)
        ensures
            reply@ == self@.readiness(store_answers),
    {
        let mut ready = true;
        let mut body = empty_object();
        if let Some(breakers) = &self.breakers {
            let states = breakers.states();
            let n: usize = states.len();
            let ghost keys = states.keys();
            let ghost views = breakers@;
            let mut i: usize = 0;
            assert(json_members(body)->0 =~= listed_components(views, keys.take(0)));
            while i < n
                invariant
                    i <= n,
                    n == keys.len(),
                    keys == states.keys(),
                    states@ == views.map_values(|breaker: BreakerView| breaker.state),
                    json_members(body) == Some(listed_components(views, keys.take(i as int))),
                    ready == (forall|k: int|
                        0 <= k < i ==> views[#[trigger] keys[k]].state == State::Closed),
                decreases n - i,
            {
                let prefix = states.key_at(i);
                let closed = *states.value_at(i) == State::Closed;
                ready = ready && closed;
                let name = "backend:".to_owned().concat(prefix.as_str());
                put_flag(&mut body, name.as_str(), closed);
                proof {
                    assert(keys.take(i + 1) =~= keys.take(i as int).push(prefix@));
                    lemma_listed_components(views, keys.take(i as int), prefix@);
                }
                i += 1;
            }
            proof {
                assert(keys.take(n as int) =~= keys);
                lemma_all_components(views, keys);
                assert(ready == self@.all_closed()) by {
                    if ready {
                        assert forall|prefix: Seq<char>| #[trigger]
                            views.contains_key(prefix) implies views[prefix].state
                            == State::Closed by {
                            assert(states@.dom().contains(prefix));
                            let k = keys.index_of(prefix);
                            assert(keys.contains(prefix));
                            assert(views[keys[k]].state == State::Closed);
                        }
                    } else {
                        let k = choose|k: int|
                            0 <= k < n && !(views[#[trigger] keys[k]].state == State::Closed);
                        assert(keys.contains(keys[k]));
                        assert(views.contains_key(keys[k]));
                    }
                }
            }
        }
        if self.limiter.is_some() {
            ready = ready && store_answers;
            put_flag(&mut body, "redis", store_answers);
        }
        proof {
            lemma_components_are_plain(self@, store_answers);
        }
        let status: u16 = if ready {
            200
        } else {
            503
        };
        Reply::with_header(
            status,
            "content-type",
            "application/json".to_owned(),
            write_json(&body),
        )
    }
}

proof fn lemma_components_are_plain(gateway: ProxyView, store_answers: bool)
    ensures
        all_plain(gateway.components(store_answers)),
{
    let components = gateway.components(store_answers);
    assert forall|name: Seq<char>| #[trigger] components.contains_key(name) implies !(
    components[name] is Other) && !is_reserved_name(name) by {
        reveal_strlit("redis");
        reveal_strlit("backend:");
        if name != "redis"@ {
            let prefix = choose|prefix: Seq<char>| #[trigger]
                gateway.breakers->0.contains_key(prefix) && name == component_name(prefix);
            assert(name[0] == 'b');
        }
        lemma_not_reserved(name);
    }
}

/// The components of the backends under `prefixes`.
spec fn listed_components(
    breakers: Map<Seq<char>, BreakerView>,
    prefixes: Seq<Seq<char>>,
) -> Map<Seq<char>, JsonMember> {
    Map::new(
        |name: Seq<char>|
            exists|k: int| 0 <= k < prefixes.len() && name == component_name(#[trigger] prefixes[k]),
        |name: Seq<char>|
            JsonMember::Flag(
                breakers[name.skip("backend:"@.len() as int)].state == State::Closed,
            ),
    )
}

proof fn lemma_listed_components(
    breakers: Map<Seq<char>, BreakerView>,
    prefixes: Seq<Seq<char>>,
    prefix: Seq<char>,
)
    ensures
        listed_components(breakers, prefixes.push(prefix)) == listed_components(
            breakers,
            prefixes,
        ).insert(
            component_name(prefix),
            JsonMember::Flag(breakers[prefix].state == State::Closed),
        ),
{
    let more = prefixes.push(prefix);
    lemma_component_names(prefix, prefix);
    let now = listed_components(breakers, more);
    let before = listed_components(breakers, prefixes).insert(
        component_name(prefix),
        JsonMember::Flag(breakers[prefix].state == State::Closed),
    );
    assert forall|name: Seq<char>| now.dom().contains(name) == before.dom().contains(name) by {
        if now.dom().contains(name) {
            let k = choose|k: int|
                0 <= k < more.len() && name == component_name(#[trigger] more[k]);
            if k < prefixes.len() {
                assert(name == component_name(prefixes[k]));
            }
        }
        if before.dom().contains(name) {
            if name == component_name(prefix) {
                assert(more[prefixes.len() as int] == prefix);
            } else {
                let k = choose|k: int|
                    0 <= k < prefixes.len() && name == component_name(#[trigger] prefixes[k]);
                assert(more[k] == prefixes[k]);
            }
        }
    }
    assert(now =~= before);
}

proof fn lemma_all_components(breakers: Map<Seq<char>, BreakerView>, keys: Seq<Seq<char>>)
    requires
        forall|key: Seq<char>| #[trigger] keys.contains(key) <==> breakers.contains_key(key),
    ensures
        listed_components(breakers, keys) == backend_components(breakers),
{
    let a = listed_components(breakers, keys);
    let b = backend_components(breakers);
    assert forall|name: Seq<char>| a.dom().contains(name) == b.dom().contains(name) by {
        if a.dom().contains(name) {
            let k = choose|k: int|
                0 <= k < keys.len() && name == component_name(#[trigger] keys[k]);
            assert(keys.contains(keys[k]));
            assert(breakers.contains_key(keys[k]));
        }
        if b.dom().contains(name) {
            let prefix = choose|prefix: Seq<char>| #[trigger]
                breakers.contains_key(prefix) && name == component_name(prefix);
            assert(keys.contains(prefix));
            let k = keys.index_of(prefix);
            assert(keys[k] == prefix);
        }
    }
    assert(a =~= b);
}

impl ProxyState {
    /// Answers a scrape. The states of the breakers are published now, from the
    /// breakers themselves.
    pub fn metrics_endpoint(&mut self) -> (reply: Reply)
        ensures
            reply@ == old(self)@.scrape(),
            final(self)@ == old(self)@.published(),
            final(self).clocks() == old(self).clocks(),
    {
        let ghost before = self@;
        let states = match &self.breakers {
            Some(breakers) => breakers.states(),
            None => Table::new(),
        };
        let body = match &mut self.metrics {
            Some(metrics) => {
                publish_states(metrics, &states);
                metrics.render()
            },
            None => String::new(),
        };
        proof {
            if before.metrics is Some {
                let metrics = before.metrics->0;
                if before.breakers is Some {
                    assert(states@.map_values(|state: State| gauge_value(state))
                        =~= before.breakers->0.map_values(
                        |breaker: BreakerView| gauge_value(breaker.state),
                    ));
                } else {
                    assert(metrics.breaker_state.union_prefer_right(
                        states@.map_values(|state: State| gauge_value(state)),
                    ) =~= metrics.breaker_state);
                }
            }
            assert(self@ == before.published());
        }
        Reply::with_header(
            200,
            "content-type",
            "text/plain; version=0.0.4; charset=utf-8".to_owned(),
            body,
        )
    }
}

fn publish_states(metrics: &mut Metrics, states: &Table<State>)
    ensures
        final(metrics)@ == (MetricsView {
            breaker_state: old(metrics)@.breaker_state.union_prefer_right(
                states@.map_values(|state: State| gauge_value(state)),
            ),
            ..old(metrics)@
        }),
{
    let n: usize = states.len();
    let ghost keys = states.keys();
    let ghost gauges = states@.map_values(|state: State| gauge_value(state));
    let ghost before = metrics@;
    let mut i: usize = 0;
    assert(before.breaker_state.union_prefer_right(gauges.restrict(keys.take(0).to_set()))
        =~= before.breaker_state);
    while i < n
        invariant
            i <= n,
            n == keys.len(),
            keys == states.keys(),
            gauges == states@.map_values(|state: State| gauge_value(state)),
            metrics@ == (MetricsView {
                breaker_state: before.breaker_state.union_prefer_right(
                    gauges.restrict(keys.take(i as int).to_set()),
                ),
                ..before
            }),
        decreases n - i,
    {
        let prefix = states.key_at(i);
        let state = *states.value_at(i);
        metrics.set_breaker_state(prefix.as_str(), state);
        proof {
            let done = keys.take(i as int);
            let now = keys.take(i + 1);
            assert(now =~= done.push(prefix@));
            assert forall|k: Seq<char>|
                now.to_set().contains(k) <==> (done.to_set().contains(k) || k == prefix@) by {
                if done.contains(k) {
                    assert(now[done.index_of(k)] == k);
                }
                if k == prefix@ {
                    assert(now[i as int] == k);
                }
                if now.contains(k) && k != prefix@ {
                    assert(done[now.index_of(k)] == k);
                }
            }
            assert(metrics@.breaker_state =~= before.breaker_state.union_prefer_right(
                gauges.restrict(now.to_set()),
            ));
        }
        i += 1;
    }
    proof {
        assert(keys.take(n as int) =~= keys);
        assert forall|k: Seq<char>| keys.to_set().contains(k) <==> gauges.dom().contains(k) by {
            assert(keys.contains(k) <==> states@.dom().contains(k));
        }
        assert(gauges.restrict(keys.to_set()) =~= gauges);
    }
}

/// A path segment: there is something, and no slash in it.
pub open spec fn is_segment(text: Seq<char>) -> bool {
    text.len() > 0 && !text.contains('/')
}

/// The prefix is stripped: `/{prefix}/{rest}` asks the backend of the prefix for
/// `/{rest}`, and `/{prefix}` asks it for `/`.
pub proof fn law_prefix_is_stripped(prefix: Seq<char>, rest: Seq<char>)
    requires
        is_segment(prefix),
    ensures
        route_path("/"@ + prefix + "/"@ + rest) == (prefix, "/"@ + rest),
        route_path("/"@ + prefix) == (prefix, "/"@),
{
    reveal_strlit("/");
    assert(prefix.contains(prefix[0]));
    let long = "/"@ + prefix + "/"@ + rest;
    assert(long.drop_first() =~= prefix.push('/') + rest);
    assert(trim_start_of(long.drop_first(), '/') == long.drop_first());
    lemma_split_once(prefix, '/', rest);
    let short = "/"@ + prefix;
    assert(short.drop_first() =~= prefix);
    assert(trim_start_of(prefix, '/') == prefix);
    prefix.index_of_first_ensures('/');
}

/// A request to a known prefix whose breaker lets it pass reaches the backend of that
/// prefix, with the rest of its path and its query unchanged.
pub proof fn law_request_reaches_its_backend(
    gateway: ProxyView,
    prefix: Seq<char>,
    rest: Seq<char>,
    query: Option<Seq<char>>,
    now: nat,
)
    requires
        is_segment(prefix),
        gateway.backends.contains_key(prefix),
        gateway.asked(prefix, now).1 == Admit::Call,
    ensures
        gateway.dispatched("/"@ + prefix + "/"@ + rest, query, now).1 == DispatchView::Forward(
            CallView {
                prefix,
                target: gateway.backends[prefix] + ("/"@ + rest) + query_part(query),
                timed: gateway.timer_for(prefix),
            },
        ),
{
    law_prefix_is_stripped(prefix, rest);
}

/// With a bearer check, nothing gets further without a verified subject, and what is rejected is
/// not counted: the store is asked only on behalf of a verified subject.
pub proof fn law_only_verified_requests_are_counted(
    gateway: ProxyView,
    authorization: Option<Seq<char>>,
    client_ip: Option<Seq<char>>,
    now: u64,
)
    requires
        gateway.auth is Some,
    ensures
        match gateway.screened(authorization, client_ip, now) {
            ScreeningView::Reject(rejection) => bearer_verdict(
                gateway.auth->0,
                authorization,
                now,
            ) == Err::<Seq<char>, _>(rejection),
            ScreeningView::Count { subject, .. } => subject is Some && bearer_verdict(
                gateway.auth->0,
                authorization,
                now,
            ) == Ok::<_, RejectionView>(subject->0),
            ScreeningView::Pass(subject) => subject is Some && bearer_verdict(
                gateway.auth->0,
                authorization,
                now,
            ) == Ok::<_, RejectionView>(subject->0),
        },
{
}

/// A request over the limit is answered with 429 and touches neither breakers nor
/// backends; a store that does not answer lets every request go on.
pub proof fn law_limiter_touches_no_backend(
    gateway: ProxyView,
    path: Seq<char>,
    reply: CounterReply,
)
    ensures
        ({
            let (after, rejected) = gateway.counted(path, reply);
            &&& after.breakers == gateway.breakers
            &&& after.backends == gateway.backends
            &&& after.auth == gateway.auth
            &&& rejected is Some ==> rejected->0.status == 429
            &&& reply == CounterReply::Unavailable ==> rejected is None
        }),
{
}

/// While the breaker of a backend is open and its cooldown lasts, requests to it are
/// answered with 503, and nothing but the count of such answers changes.
pub proof fn law_open_circuit_fails_fast(
    gateway: ProxyView,
    path: Seq<char>,
    query: Option<Seq<char>>,
    now: nat,
)
    requires
        route_path(path).0.len() > 0,
        gateway.backends.contains_key(route_path(path).0),
        gateway.breakers is Some,
        gateway.breakers->0.contains_key(route_path(path).0),
        gateway.breakers->0[route_path(path).0].state == State::Open,
        gateway.breakers->0[route_path(path).0].opened_at is Some,
        time_between(gateway.breakers->0[route_path(path).0].opened_at->0, now)
            < gateway.breakers->0[route_path(path).0].cooldown,
    ensures
        gateway.dispatched(path, query, now) == (
            gateway.short_circuited(route_path(path).0),
            DispatchView::Respond(circuit_open_reply(route_path(path).0)),
        ),
{
    let breakers = gateway.breakers->0;
    let prefix = route_path(path).0;
    assert(breakers.insert(prefix, breakers[prefix]) =~= breakers);
}

/// A backend that could not be reached as often in a row as the threshold says is cut
/// off: the next request within the cooldown fails fast.
pub proof fn law_dead_backend_is_cut_off(
    gateway: ProxyView,
    path: Seq<char>,
    query: Option<Seq<char>>,
    threshold: nat,
    cooldown: nat,
    failures: Seq<nat>,
    now: nat,
)
    requires
        route_path(path).0.len() > 0,
        gateway.backends.contains_key(route_path(path).0),
        gateway.breakers is Some,
        gateway.breakers->0.contains_key(route_path(path).0),
        gateway.breakers->0[route_path(path).0] == BreakerView::fresh(
            threshold,
            cooldown,
        ).after_failures(failures),
        0 < threshold,
        failures.len() == threshold,
        time_between(failures.last(), now) < cooldown,
    ensures
        gateway.dispatched(path, query, now).1 == DispatchView::Respond(
            circuit_open_reply(route_path(path).0),
        ),
{
    law_streak_opens_the_breaker(BreakerView::fresh(threshold, cooldown), failures);
    law_open_circuit_fails_fast(gateway, path, query, now);
}

/// One backend's trouble is its own: asking or informing the breaker of one prefix leaves
/// the breaker of every other as it is.
pub proof fn law_backends_do_not_affect_each_other(
    gateway: ProxyView,
    prefix: Seq<char>,
    other: Seq<char>,
    success: bool,
    now: nat,
)
    requires
        gateway.breakers is Some,
        gateway.breakers->0.contains_key(other),
        prefix != other,
    ensures
        gateway.recorded(prefix, success, now).breakers is Some,
        gateway.recorded(prefix, success, now).breakers->0.contains_key(other),
        gateway.recorded(prefix, success, now).breakers->0[other] == gateway.breakers->0[other],
        gateway.asked(prefix, now).0.breakers is Some,
        gateway.asked(prefix, now).0.breakers->0.contains_key(other),
        gateway.asked(prefix, now).0.breakers->0[other] == gateway.breakers->0[other],
{
    law_breakers_are_independent(gateway.breakers->0, prefix, other, success, now);
}

/// An answer never opens a breaker, whatever its status.
pub proof fn law_answers_never_open_a_breaker(gateway: ProxyView, prefix: Seq<char>, now: nat)
    requires
        gateway.breakers is Some,
        gateway.breakers->0.contains_key(prefix),
        gateway.breakers->0[prefix].state != State::Open,
    ensures
        gateway.recorded(prefix, true, now).breakers->0[prefix].state == State::Closed,
{
}

/// Hop-by-hop headers are not forwarded in either direction. All other headers of a
/// response are, and of a request those whose value is text.
pub proof fn law_only_end_to_end_headers_are_forwarded(
    headers: Seq<(Seq<char>, Seq<u8>)>,
    header: (Seq<char>, Seq<u8>),
)
    ensures
        forwarded(headers).contains(header) <==> headers.contains(header) && !is_hop_by_hop(
            header.0,
        ),
        forwarded_in_request(headers).contains(header) <==> headers.contains(header)
            && !is_hop_by_hop(header.0) && is_text_value(header.1),
{
    lemma_filtered(headers, |header: (Seq<char>, Seq<u8>)| !is_hop_by_hop(header.0), header);
    lemma_filtered(
        headers,
        |header: (Seq<char>, Seq<u8>)| !is_hop_by_hop(header.0) && is_text_value(header.1),
        header,
    );
}

proof fn lemma_filtered(
    headers: Seq<(Seq<char>, Seq<u8>)>,
    keep: spec_fn((Seq<char>, Seq<u8>)) -> bool,
    header: (Seq<char>, Seq<u8>),
)
    ensures
        headers.filter(keep).contains(header) <==> headers.contains(header) && keep(header),
{
    let kept = headers.filter(keep);
    broadcast use vstd::seq_lib::group_filter_ensures;

    if kept.contains(header) {
        headers.lemma_filter_contains_rev(keep, header);
        let i = kept.index_of(header);
        assert(keep(kept[i]));
    }
    if headers.contains(header) && keep(header) {
        let i = headers.index_of(header);
        assert(kept.contains(headers[i]));
    }
}

/// Readiness does not lie: the probe is answered with 200 exactly when every component
/// that it reports is well.
pub proof fn law_readiness_is_truthful(gateway: ProxyView, store_answers: bool)
    ensures
        gateway.readiness(store_answers).status == 200 <==> forall|name: Seq<char>| #[trigger]
            gateway.components(store_answers).contains_key(name) ==> gateway.components(
                store_answers,
            )[name] == JsonMember::Flag(true),
{
    let components = gateway.components(store_answers);
    reveal_strlit("redis");
    reveal_strlit("backend:");
    if gateway.ready(store_answers) {
        assert forall|name: Seq<char>| #[trigger] components.contains_key(name) implies
            components[name] == JsonMember::Flag(true) by {
            if gateway.breakers is Some && backend_components(gateway.breakers->0).contains_key(
                name,
            ) {
                let prefix = choose|prefix: Seq<char>| #[trigger]
                    gateway.breakers->0.contains_key(prefix) && name == component_name(prefix);
                lemma_component_names(prefix, prefix);
            }
        }
    } else if gateway.limiter is Some && !store_answers {
        assert(components.contains_key("redis"@));
    } else {
        let prefix = choose|prefix: Seq<char>| #[trigger]
            gateway.breakers->0.contains_key(prefix) && gateway.breakers->0[prefix].state
                != State::Closed;
        let name = component_name(prefix);
        lemma_component_names(prefix, prefix);
        assert(name[0] == 'b');
        assert("redis"@[0] == 'r');
        assert(backend_components(gateway.breakers->0).contains_key(name));
        assert(components.contains_key(name));
        assert(components[name] == JsonMember::Flag(false));
    }
}

/// The nine classes of HTTP status codes, `1xx` to `9xx`.
pub open spec fn status_classes() -> Set<Seq<char>> {
    Set::new(
        |class: Seq<char>|
            exists|hundreds: nat|
                1 <= hundreds <= 9 && class == #[trigger] decimal(hundreds) + "xx"@,
    )
}

impl ProxyView {
    /// The metrics are labelled with nothing but prefixes of the route table and classes
    /// of status codes, and every breaker belongs to a route.
    pub open spec fn well_labelled(self) -> bool {
        &&& self.metrics is Some ==> self.metrics->0.labelled_by(
            self.backends.dom(),
            status_classes(),
        )
        &&& self.breakers is Some ==> self.breakers->0.dom().subset_of(self.backends.dom())
    }
}

proof fn lemma_backend_prefixes(routes: Seq<RouteView>, i: int)
    requires
        0 <= i < routes.len(),
    ensures
        backend_table(routes).contains_key(routes[i].prefix),
    decreases routes.len(),
{
    if i < routes.len() - 1 {
        lemma_backend_prefixes(routes.drop_last(), i);
        assert(routes.drop_last()[i] == routes[i]);
    }
}

impl ProxyView {
    /// A gateway to `routes` as it is built: its breakers, if any, are those of the
    /// routes, and its metrics, if any, have counted nothing.
    pub open spec fn is_fresh(self, routes: Seq<RouteView>, breaker: BreakerView) -> bool {
        &&& self.backends == backend_table(routes)
        &&& self.breakers is Some ==> self.breakers->0 == one_per_prefix(routes, breaker)
        &&& self.metrics is Some ==> self.metrics->0 == MetricsView::empty()
    }
}

/// A gateway as it is built labels nothing but what its routes allow: the metrics start
/// out empty, and every breaker belongs to a route.
pub proof fn law_fresh_gateway_is_well_labelled(
    gateway: ProxyView,
    routes: Seq<RouteView>,
    breaker: BreakerView,
)
    requires
        gateway.is_fresh(routes, breaker),
    ensures
        gateway.well_labelled(),
{
    if gateway.breakers is Some {
        assert forall|prefix: Seq<char>| #[trigger]
            gateway.breakers->0.dom().contains(prefix) implies gateway.backends.dom().contains(
            prefix,
        ) by {
            let i = choose|i: int| 0 <= i < routes.len() && routes[i].prefix == prefix;
            lemma_backend_prefixes(routes, i);
        }
    }
}

/// Nobody can grow the metrics by sending requests: whatever comes in, every step labels
/// with prefixes of the route table and classes of status codes only.
pub proof fn law_requests_cannot_grow_the_metrics(
    gateway: ProxyView,
    path: Seq<char>,
    query: Option<Seq<char>>,
    reply: CounterReply,
    call: CallView,
    outcome: CallOutcome,
    now: nat,
    nanos: nat,
)
    requires
        gateway.well_labelled(),
        call.timed is Some ==> gateway.backends.contains_key(call.timed->0),
        outcome matches CallOutcome::Answered(status) ==> 100 <= status <= 999,
    ensures
        gateway.counted(path, reply).0.well_labelled(),
        gateway.turned_away(path, now).0.well_labelled(),
        gateway.dispatched(path, query, now).0.well_labelled(),
        gateway.dispatched(path, query, now).1 matches DispatchView::Forward(
            forwarded_call,
        ) ==> forwarded_call.timed is Some ==> gateway.backends.contains_key(
            forwarded_call.timed->0,
        ),
        gateway.concluded(call, outcome, now, nanos).0.well_labelled(),
        gateway.published().well_labelled(),
{
    let prefixes = gateway.backends.dom();
    let classes = status_classes();
    assert("5xx"@ == decimal(5) + "xx"@) by {
        reveal_strlit("5xx");
        reveal_strlit("xx");
        assert(decimal(5) =~= seq!['5']);
        assert("5xx"@ =~= decimal(5) + "xx"@);
    }
    let class = match outcome {
        CallOutcome::Failed => "5xx"@,
        CallOutcome::Answered(status) => status_class_of(status),
    };
    assert(classes.contains(class)) by {
        if let CallOutcome::Answered(status) = outcome {
            assert(class == decimal((status / 100) as nat) + "xx"@);
        }
    }
    if gateway.metrics is Some {
        let metrics = gateway.metrics->0;
        if call.timed is Some {
            law_labels_stay_bounded(
                metrics,
                prefixes,
                classes,
                call.timed->0,
                Some(class),
                nanos,
                State::Closed,
            );
        }
        let asked_for = route_path(path).0;
        if gateway.backends.contains_key(asked_for) {
            law_labels_stay_bounded(
                metrics,
                prefixes,
                classes,
                asked_for,
                None,
                nanos,
                State::Closed,
            );
        }
    }
}

/// Reading the metrics changes nothing that is read: a second scrape with nothing in
/// between is answered like the first.
pub proof fn law_scraping_is_repeatable(gateway: ProxyView)
    ensures
        gateway.published().published() == gateway.published(),
        gateway.published().scrape() == gateway.scrape(),
{
    if gateway.metrics is Some && gateway.breakers is Some {
        let gauges = gateway.breakers->0.map_values(
            |breaker: BreakerView| gauge_value(breaker.state),
        );
        let once = gateway.metrics->0.breaker_state.union_prefer_right(gauges);
        assert(once.union_prefer_right(gauges) =~= once);
    }
}

/// Every call ends in exactly one report to the breaker of its backend, whatever came of
/// it, and no breaker is left waiting for a probe by that: a success is reported if the
/// whole answer is there, a failure otherwise, and then the request is answered with
/// 502.
pub proof fn law_every_call_is_reported_once(
    gateway: ProxyView,
    call: CallView,
    outcome: CallOutcome,
    now: nat,
    nanos: nat,
)
    ensures
        ({
            let (after, reply) = gateway.concluded(call, outcome, now, nanos);
            &&& after.breakers is Some <==> gateway.breakers is Some
            &&& gateway.breakers is Some ==> after.breakers->0 == inform_breaker(
                gateway.breakers->0,
                call.prefix,
                outcome is Answered,
                now,
            )
            &&& gateway.breakers is Some && gateway.breakers->0.contains_key(call.prefix)
                ==> after.breakers->0[call.prefix].state != State::HalfOpen
            &&& outcome is Answered ==> reply is None
            &&& outcome is Failed ==> reply == Some(unreachable_reply(call.prefix))
        }),
{
}

/// A request that was let through as the probe decides: once its call is concluded, the
/// breaker is closed if the backend answered in full, and open again from that moment on
/// if it did not.
pub proof fn law_probe_is_always_decided(
    gateway: ProxyView,
    path: Seq<char>,
    query: Option<Seq<char>>,
    asked_at: nat,
    outcome: CallOutcome,
    now: nat,
    nanos: nat,
)
    requires
        gateway.dispatched(path, query, asked_at).1 is Forward,
        gateway.breakers is Some,
        gateway.breakers->0.contains_key(route_path(path).0),
        gateway.breakers->0[route_path(path).0].state == State::Open,
    ensures
        ({
            let prefix = route_path(path).0;
            let (waiting, next) = gateway.dispatched(path, query, asked_at);
            let call = next->Forward_0;
            let after = waiting.concluded(call, outcome, now, nanos).0;
            let probed = gateway.breakers->0[prefix];
            &&& call.prefix == prefix
            &&& waiting.breakers->0[prefix].state == State::HalfOpen
            &&& outcome is Answered ==> after.breakers->0[prefix] == BreakerView::fresh(
                probed.threshold,
                probed.cooldown,
            )
            &&& outcome is Failed ==> after.breakers->0[prefix] == probed.opened(now)
        }),
{
}

/// Until a request is dispatched, nothing is pending for it: turning requests away asks no
/// breaker for anything, and a request that is not turned away has changed nothing.
pub proof fn law_nothing_is_pending_before_dispatch(gateway: ProxyView, path: Seq<char>, now: nat)
    ensures
        gateway.turned_away(path, now).0.breakers == gateway.breakers,
        gateway.turned_away(path, now).1 is None ==> gateway.turned_away(path, now).0 == gateway,
{
    if gateway.breakers is Some {
        let breakers = gateway.breakers->0;
        let prefix = route_path(path).0;
        if ask_breaker(breakers, prefix, now).1 == Admit::ShortCircuit {
            assert(ask_breaker(breakers, prefix, now).0 =~= breakers);
        }
    }
}

/// The query of a request is forwarded whole: the backend is asked for the suffix, one
/// question mark, and then the query, character for character. Without a query there is no
/// question mark.
pub proof fn law_query_is_forwarded_whole(
    gateway: ProxyView,
    path: Seq<char>,
    query: Option<Seq<char>>,
    now: nat,
)
    requires
        gateway.dispatched(path, query, now).1 is Forward,
    ensures
        ({
            let (prefix, suffix) = route_path(path);
            let call = gateway.dispatched(path, query, now).1->Forward_0;
            &&& call.prefix == prefix
            &&& query is Some ==> call.target == gateway.backends[prefix] + suffix + seq!['?']
                + query->0
            &&& query is None ==> call.target == gateway.backends[prefix] + suffix
        }),
{
    let (prefix, suffix) = route_path(path);
    lemma_query_part(gateway.backends[prefix] + suffix, query);
}

/// A query behind something is a question mark and all of the query.
pub proof fn lemma_query_part(front: Seq<char>, query: Option<Seq<char>>)
    ensures
        query is Some ==> front + query_part(query) == front + seq!['?'] + query->0,
        query is None ==> front + query_part(query) == front,
{
    reveal_strlit("?");
    assert("?"@ =~= seq!['?']);
    if query is Some {
        assert(front + query_part(query) =~= front + seq!['?'] + query->0);
    } else {
        assert(front + query_part(query) =~= front);
    }
}

/// A request to `/{prefix}/{rest}?{query}`, with any number of slashes at the start of its
/// path, asks the backend of the prefix for `/{rest}?{query}`, all of it unchanged.
pub proof fn law_requests_are_forwarded_unchanged(
    gateway: ProxyView,
    slashes: nat,
    prefix: Seq<char>,
    rest: Seq<char>,
    query: Seq<char>,
    now: nat,
)
    requires
        is_segment(prefix),
        gateway.backends.contains_key(prefix),
        gateway.asked(prefix, now).1 == Admit::Call,
    ensures
        ({
            let path = run_of('/', slashes) + prefix + seq!['/'] + rest;
            let bare = run_of('/', slashes) + prefix;
            let backend = gateway.backends[prefix];
            let asked = gateway.dispatched(path, Some(query), now).1;
            let asked_plainly = gateway.dispatched(path, None, now).1;
            let asked_bare = gateway.dispatched(bare, None, now).1;
            &&& asked is Forward
            &&& asked->Forward_0.prefix == prefix
            &&& asked->Forward_0.target == backend + seq!['/'] + rest + seq!['?'] + query
            &&& asked_plainly is Forward
            &&& asked_plainly->Forward_0.target == backend + seq!['/'] + rest
            &&& asked_bare is Forward
            &&& asked_bare->Forward_0.target == backend + seq!['/']
        }),
{
    reveal_strlit("/");
    assert("/"@ =~= seq!['/']);
    let path = run_of('/', slashes) + prefix + seq!['/'] + rest;
    let bare = run_of('/', slashes) + prefix;
    let backend = gateway.backends[prefix];
    assert(prefix.contains(prefix[0]));
    lemma_slashes_do_not_count(slashes, prefix + seq!['/'] + rest);
    lemma_slashes_do_not_count(slashes, prefix);
    assert(path =~= run_of('/', slashes) + (prefix + seq!['/'] + rest));
    assert(prefix + seq!['/'] + rest =~= prefix.push('/') + rest);
    lemma_split_once(prefix, '/', rest);
    law_split_is_at_the_first(prefix, '/');
    assert(route_path(path) == (prefix, seq!['/'] + rest));
    assert(route_path(bare) == (prefix, seq!['/']));
    law_query_is_forwarded_whole(gateway, path, Some(query), now);
    law_query_is_forwarded_whole(gateway, path, None, now);
    law_query_is_forwarded_whole(gateway, bare, None, now);
    assert(backend + (seq!['/'] + rest) + seq!['?'] + query =~= backend + seq!['/'] + rest
        + seq!['?'] + query);
    assert(backend + (seq!['/'] + rest) =~= backend + seq!['/'] + rest);
}

proof fn lemma_slashes_do_not_count(slashes: nat, rest: Seq<char>)
    requires
        rest.len() > 0,
        rest[0] != '/',
    ensures
        trim_start_of(run_of('/', slashes) + rest, '/') == rest,
    decreases slashes,
{
    let path = run_of('/', slashes) + rest;
    if slashes == 0 {
        assert(path =~= rest);
    } else {
        lemma_slashes_do_not_count((slashes - 1) as nat, rest);
        assert(path.drop_first() =~= run_of('/', (slashes - 1) as nat) + rest);
        assert(path[0] == '/');
    }
}

/// Every path is taken apart without a loss: slashes, then the prefix, which holds none,
/// and then what the backend is asked for. Only a path of nothing but slashes has no
/// prefix.
pub proof fn law_paths_are_taken_apart(path: Seq<char>)
    ensures
        ({
            let (prefix, suffix) = route_path(path);
            &&& !prefix.contains('/')
            &&& suffix.len() > 0 && suffix[0] == '/'
            &&& exists|slashes: nat|
                {
                    ||| path == #[trigger] run_of('/', slashes) + prefix + suffix
                    ||| path == run_of('/', slashes) + prefix && suffix == seq!['/']
                }
            &&& prefix.len() == 0 <==> exists|slashes: nat| path == #[trigger] run_of('/', slashes)
        }),
{
    reveal_strlit("/");
    assert("/"@ =~= seq!['/']);
    let trimmed = trim_start_of(path, '/');
    law_trimming_takes_the_run(path, '/');
    law_split_is_at_the_first(trimmed, '/');
    let (prefix, suffix) = route_path(path);
    let n = choose|n: nat| n <= path.len() && path == #[trigger] run_of('/', n) + trimmed;
    if trimmed.contains('/') {
        let (before, after) = split_once(trimmed, '/')->0;
        assert(trimmed =~= prefix + suffix);
        assert(path =~= run_of('/', n) + prefix + suffix);
        assert(trimmed[0] != '/');
        assert(before.len() > 0);
    } else {
        assert(path == run_of('/', n) + prefix && suffix == seq!['/']);
    }
    if prefix.len() == 0 {
        assert(path =~= run_of('/', n));
    }
    if exists|slashes: nat| path == #[trigger] run_of('/', slashes) {
        let k = choose|slashes: nat| path == #[trigger] run_of('/', slashes);
        if trimmed.len() > 0 {
            assert(path[n as int] == trimmed[0]);
            assert(path[n as int] == '/');
        }
    }
}

/// A request that no route serves is answered with 404, and nothing changes: one without a
/// prefix, and one with a prefix that is not in the route table, which the answer names.
pub proof fn law_unserved_requests_are_not_found(
    gateway: ProxyView,
    path: Seq<char>,
    query: Option<Seq<char>>,
    now: nat,
)
    ensures
        ({
            let (prefix, _) = route_path(path);
            let (after, next) = gateway.dispatched(path, query, now);
            &&& prefix.len() == 0 || !gateway.backends.contains_key(prefix) ==> after == gateway
                && next is Respond && next->Respond_0.status == 404
                && next->Respond_0.headers.len() == 0
            &&& prefix.len() == 0 ==> next->Respond_0.body == "not found"@
            &&& prefix.len() > 0 && !gateway.backends.contains_key(prefix)
                ==> next->Respond_0.body == "no route for prefix "@ + debug_text(prefix)
            &&& prefix.len() > 0 && gateway.backends.contains_key(prefix) && gateway.asked(
                prefix,
                now,
            ).1 == Admit::Call ==> next is Forward
        }),
{
}

/// A request to a backend that is cut off is answered with 503 and told when to come back,
/// whatever the prefix, and that is counted for the prefix.
pub proof fn law_cut_off_requests_are_told_to_come_back(
    gateway: ProxyView,
    path: Seq<char>,
    query: Option<Seq<char>>,
    now: nat,
)
    requires
        route_path(path).0.len() > 0,
        gateway.backends.contains_key(route_path(path).0),
        gateway.asked(route_path(path).0, now).1 == Admit::ShortCircuit,
    ensures
        ({
            let prefix = route_path(path).0;
            let (after, next) = gateway.dispatched(path, query, now);
            &&& next is Respond
            &&& next->Respond_0.status == 503
            &&& next->Respond_0.headers == seq![("retry-after"@, "5"@)]
            &&& next->Respond_0.body == "backend "@ + debug_text(prefix)
                + " unavailable (circuit open)"@
            &&& after.metrics is Some <==> gateway.metrics is Some
            &&& gateway.metrics is Some ==> after.metrics->0 == gateway.metrics->0.circuit_opened(
                prefix,
            )
            &&& after.limiter == gateway.limiter
        }),
{
}

/// The breaker that a request is asked of is that of its prefix; a gateway without breakers,
/// and a prefix without one, lets every request pass.
pub proof fn law_the_breaker_of_the_backend_is_asked(
    gateway: ProxyView,
    prefix: Seq<char>,
    now: nat,
)
    ensures
        gateway.breakers is None ==> gateway.asked(prefix, now) == (gateway, Admit::Call),
        gateway.breakers is Some && !gateway.breakers->0.contains_key(prefix) ==> gateway.asked(
            prefix,
            now,
        ).1 == Admit::Call,
        gateway.breakers is Some && gateway.breakers->0.contains_key(prefix) ==> {
            &&& gateway.asked(prefix, now).1 == gateway.breakers->0[prefix].ask(now).1
            &&& gateway.asked(prefix, now).0.breakers->0[prefix]
                == gateway.breakers->0[prefix].ask(now).0
        },
        gateway.asked(prefix, now).0.metrics == gateway.metrics,
        gateway.asked(prefix, now).0.limiter == gateway.limiter,
        gateway.asked(prefix, now).0.backends == gateway.backends,
{
}

/// A request is turned away before its body is read exactly if it would not be forwarded,
/// whatever its query, and with the same answer.
pub proof fn law_turning_away_is_dispatching(
    gateway: ProxyView,
    path: Seq<char>,
    query: Option<Seq<char>>,
    now: nat,
)
    ensures
        gateway.turned_away(path, now).1 is None <==> gateway.dispatched(path, query, now).1
            is Forward,
        gateway.turned_away(path, now).1 matches Some(reply) ==> gateway.dispatched(
            path,
            query,
            now,
        ) == (gateway.turned_away(path, now).0, DispatchView::Respond(reply)),
{
}

/// The class of a status code is its first digit and `xx`.
pub proof fn law_status_classes_are_the_first_digit(status: u16)
    requires
        100 <= status <= 999,
    ensures
        status_class_of(status).len() == 3,
        status_class_of(status)[0] as int - '0' as int == status / 100,
        status_class_of(status)[1] == 'x',
        status_class_of(status)[2] == 'x',
{
    reveal_strlit("xx");
    let hundreds = (status / 100) as nat;
    assert(decimal(hundreds).len() == 1);
}

/// What came of a call is counted for the prefix that it was made for: one request, one
/// response of the class of its status, or `5xx` for a failure, and its time. The limiter
/// and the backends are left alone. A failure is answered with 502.
pub proof fn law_calls_are_counted_and_timed(
    gateway: ProxyView,
    call: CallView,
    outcome: CallOutcome,
    now: nat,
    nanos: nat,
)
    ensures
        ({
            let (after, reply) = gateway.concluded(call, outcome, now, nanos);
            &&& after.limiter == gateway.limiter
            &&& after.backends == gateway.backends
            &&& after.auth == gateway.auth
            &&& after.metrics is Some <==> gateway.metrics is Some
            &&& gateway.metrics is Some && call.timed is Some ==> match outcome {
                CallOutcome::Answered(status) => after.metrics->0
                    == gateway.metrics->0.finished(
                    call.timed->0,
                    Some(status_class_of(status)),
                    nanos,
                ),
                CallOutcome::Failed => after.metrics->0 == gateway.metrics->0.finished(
                    call.timed->0,
                    Some(seq!['5', 'x', 'x']),
                    nanos,
                ),
            }
            &&& outcome is Failed ==> {
                &&& reply is Some
                &&& reply->0.status == 502
                &&& reply->0.headers.len() == 0
                &&& reply->0.body == "backend "@ + debug_text(call.prefix) + " unreachable"@
            }
            &&& outcome is Answered ==> reply is None
        }),
{
    reveal_strlit("5xx");
    assert("5xx"@ =~= seq!['5', 'x', 'x']);
}

/// A forwarded call is timed under the prefix of its request exactly if there are metrics.
pub proof fn law_forwarded_calls_are_timed(
    gateway: ProxyView,
    path: Seq<char>,
    query: Option<Seq<char>>,
    now: nat,
)
    requires
        gateway.dispatched(path, query, now).1 is Forward,
    ensures
        gateway.metrics is Some ==> gateway.dispatched(path, query, now).1->Forward_0.timed
            == Some(route_path(path).0),
        gateway.metrics is None ==> gateway.dispatched(path, query, now).1->Forward_0.timed
            is None,
{
}

/// A request over the limit is answered with 429, and told in decimal how many seconds to
/// wait; it is counted for its prefix if that is in the route table. All others go on and
/// are counted nowhere here.
pub proof fn law_limited_requests_are_told_to_wait(
    gateway: ProxyView,
    path: Seq<char>,
    reply: CounterReply,
)
    ensures
        ({
            let (after, rejected) = gateway.counted(path, reply);
            let prefix = route_path(path).0;
            &&& gateway.limiter is None ==> after == gateway && rejected is None
            &&& gateway.limiter is Some ==> after.limiter == Some(
                gateway.limiter->0.after(reply),
            )
            &&& gateway.limiter is Some ==> match gateway.limiter->0.decision(reply) {
                Decision::Limit(wait) => {
                    &&& rejected is Some
                    &&& rejected->0.status == 429
                    &&& rejected->0.headers.len() == 1
                    &&& rejected->0.headers[0].0 == "retry-after"@
                    &&& is_digits(rejected->0.headers[0].1)
                    &&& number_of(rejected->0.headers[0].1) == wait
                    &&& rejected->0.body == "rate limit exceeded"@
                    &&& gateway.metrics is Some && gateway.backends.contains_key(prefix)
                        ==> after.metrics == Some(gateway.metrics->0.rate_limited(prefix))
                    &&& !gateway.backends.contains_key(prefix) ==> after.metrics
                        == gateway.metrics
                },
                _ => rejected is None && after.metrics == gateway.metrics,
            }
        }),
{
    if gateway.limiter is Some && gateway.limiter->0.decision(reply) is Limit {
        law_decimal_reads_back(gateway.limiter->0.decision(reply)->Limit_0 as nat);
    }
}

/// What a request is counted under: its subject, or, only where there is none, the address
/// of the client, in the window that it comes in, whatever the length of the window. The
/// counter expires with the window.
pub proof fn law_requests_are_counted_by_subject(
    gateway: ProxyView,
    subject: Option<Seq<char>>,
    client_ip: Option<Seq<char>>,
    now: u64,
    window: nat,
)
    requires
        gateway.limiter is Some,
        gateway.limiter->0.window_secs > 0,
        window * gateway.limiter->0.window_secs <= now,
        now < (window + 1) * gateway.limiter->0.window_secs,
    ensures
        ({
            let limiter = gateway.limiter->0;
            let counted = gateway.admitted(subject, client_ip, now);
            let who = match subject {
                Some(subject) => seq!['s', 'u', 'b', ':'] + subject,
                None => seq!['i', 'p', ':'] + match client_ip {
                    Some(ip) => ip,
                    None => "unkeyed"@,
                },
            };
            &&& counted is Count
            &&& counted->subject == subject
            &&& counted->expire_secs == limiter.window_secs
            &&& counted->key == seq!['r', 'l'] + limiter.key_prefix + seq![':'] + who + seq![':']
                + decimal(window)
        }),
{
    reveal_strlit("rl");
    reveal_strlit(":");
    reveal_strlit("sub:");
    reveal_strlit("ip:");
    assert("rl"@ =~= seq!['r', 'l']);
    assert(":"@ =~= seq![':']);
    assert("sub:"@ =~= seq!['s', 'u', 'b', ':']);
    assert("ip:"@ =~= seq!['i', 'p', ':']);
    law_budget_is_shared_within_a_window(
        gateway.limiter->0,
        Seq::empty(),
        window,
        now,
        now,
    );
}

/// What happens to a request that comes in: it is rejected exactly if there is a bearer
/// check and it does not pass it, and else it goes on as the verified subject, if any, to be
/// counted exactly if there is a limiter.
pub proof fn law_screening_follows_the_bearer_check(
    gateway: ProxyView,
    authorization: Option<Seq<char>>,
    client_ip: Option<Seq<char>>,
    now: u64,
)
    ensures
        ({
            let screening = gateway.screened(authorization, client_ip, now);
            let verdict = bearer_verdict(gateway.auth->0, authorization, now);
            let subject = if gateway.auth is Some {
                Some(verdict->Ok_0)
            } else {
                None
            };
            &&& screening is Reject <==> gateway.auth is Some && verdict is Err
            &&& screening is Reject ==> screening->Reject_0 == verdict->Err_0
            &&& !(screening is Reject) ==> screening == gateway.admitted(subject, client_ip, now)
            &&& !(screening is Reject) ==> (screening is Count <==> gateway.limiter is Some)
            &&& screening is Pass ==> screening->Pass_0 == subject
        }),
{
}

/// The route table is what the routes say: it has every prefix among them and no other, and
/// the last route of a prefix, wherever it stands, gives its backend.
pub proof fn law_last_route_of_a_prefix_counts(routes: Seq<RouteView>, i: int)
    requires
        0 <= i < routes.len(),
        forall|k: int| i < k < routes.len() ==> (#[trigger] routes[k]).prefix != routes[i].prefix,
    ensures
        backend_table(routes).contains_key(routes[i].prefix),
        backend_table(routes)[routes[i].prefix] == routes[i].backend,
    decreases routes.len(),
{
    if i < routes.len() - 1 {
        assert(routes[routes.len() - 1].prefix != routes[i].prefix);
        assert(routes.drop_last()[i] == routes[i]);
        assert forall|k: int| i < k < routes.drop_last().len() implies (
        #[trigger] routes.drop_last()[k]).prefix != routes.drop_last()[i].prefix by {
            assert(routes.drop_last()[k] == routes[k]);
        }
        law_last_route_of_a_prefix_counts(routes.drop_last(), i);
    }
}

/// Nothing is in the route table that no route put there.
pub proof fn law_only_routes_are_served(routes: Seq<RouteView>, prefix: Seq<char>)
    requires
        backend_table(routes).contains_key(prefix),
    ensures
        exists|i: int|
            0 <= i < routes.len() && (#[trigger] routes[i]).prefix == prefix && routes[i].backend
                == backend_table(routes)[prefix],
    decreases routes.len(),
{
    if routes.len() > 0 {
        let last = routes[routes.len() - 1];
        if last.prefix != prefix {
            law_only_routes_are_served(routes.drop_last(), prefix);
            let i = choose|i: int|
                0 <= i < routes.drop_last().len() && (#[trigger] routes.drop_last()[i]).prefix
                    == prefix && routes.drop_last()[i].backend == backend_table(
                    routes.drop_last(),
                )[prefix];
            assert(routes[i] == routes.drop_last()[i]);
        }
    }
}

/// Headers are forwarded one by one, in their order and as often as they occur: what is
/// forwarded of two lists, one behind the other, is what is forwarded of each.
pub proof fn law_headers_keep_their_order(
    a: Seq<(Seq<char>, Seq<u8>)>,
    b: Seq<(Seq<char>, Seq<u8>)>,
    header: (Seq<char>, Seq<u8>),
)
    ensures
        forwarded(a + b) == forwarded(a) + forwarded(b),
        forwarded_in_request(a + b) == forwarded_in_request(a) + forwarded_in_request(b),
        forwarded(seq![header]) == if is_hop_by_hop(header.0) {
            Seq::empty()
        } else {
            seq![header]
        },
        forwarded_in_request(seq![header]) == if is_hop_by_hop(header.0) || !is_text_value(
            header.1,
        ) {
            Seq::empty()
        } else {
            seq![header]
        },
{
    let keep = |header: (Seq<char>, Seq<u8>)| !is_hop_by_hop(header.0);
    let keep_text = |header: (Seq<char>, Seq<u8>)|
        !is_hop_by_hop(header.0) && is_text_value(header.1);
    lemma_filter_joined(a, b, keep);
    lemma_filter_joined(a, b, keep_text);
    lemma_filter_one(header, keep);
    lemma_filter_one(header, keep_text);
}

proof fn lemma_filter_joined(
    a: Seq<(Seq<char>, Seq<u8>)>,
    b: Seq<(Seq<char>, Seq<u8>)>,
    keep: spec_fn((Seq<char>, Seq<u8>)) -> bool,
)
    ensures
        (a + b).filter(keep) == a.filter(keep) + b.filter(keep),
    decreases b.len(),
{
    reveal(Seq::filter);
    if b.len() == 0 {
        assert(a + b =~= a);
        assert(b.filter(keep) =~= Seq::empty());
        assert(a.filter(keep) + b.filter(keep) =~= a.filter(keep));
    } else {
        lemma_filter_joined(a, b.drop_last(), keep);
        assert((a + b).drop_last() =~= a + b.drop_last());
        assert((a + b).last() == b.last());
        assert((a + b).filter(keep) =~= a.filter(keep) + b.filter(keep));
    }
}

proof fn lemma_filter_one(
    header: (Seq<char>, Seq<u8>),
    keep: spec_fn((Seq<char>, Seq<u8>)) -> bool,
)
    ensures
        seq![header].filter(keep) == if keep(header) {
            seq![header]
        } else {
            Seq::empty()
        },
{
    reveal(Seq::filter);
    let one = seq![header];
    assert(one.drop_last() =~= Seq::empty());
    assert(one.drop_last().filter(keep) =~= Seq::empty());
    if keep(header) {
        assert(one.filter(keep) =~= seq![header]);
    }
}

/// The hop-by-hop headers are these eight, and a header value is text if each of its bytes
/// is visible ASCII, a space or a tab.
pub proof fn law_headers_are_told_apart(name: Seq<char>, value: Seq<u8>)
    ensures
        is_hop_by_hop(name) <==> (name == "connection"@ || name == "keep-alive"@ || name
            == "proxy-authenticate"@ || name == "proxy-authorization"@ || name == "te"@ || name
            == "trailers"@ || name == "transfer-encoding"@ || name == "upgrade"@),
        is_text_value(value) <==> forall|i: int|
            0 <= i < value.len() ==> #[trigger] value[i] == 9 || (value[i] >= 32 && value[i]
                <= 126),
{
}

/// Readiness reports each backend that has a breaker under its prefix, as well exactly while
/// that breaker is closed, and the store, if it is used, as well exactly if it answers.
/// Nothing else is reported.
pub proof fn law_readiness_reports_every_component(
    gateway: ProxyView,
    store_answers: bool,
    prefix: Seq<char>,
    name: Seq<char>,
)
    ensures
        ({
            let components = gateway.components(store_answers);
            let reply = gateway.readiness(store_answers);
            &&& gateway.breakers is Some && gateway.breakers->0.contains_key(prefix) ==> {
                &&& components.contains_key("backend:"@ + prefix)
                &&& components["backend:"@ + prefix] == JsonMember::Flag(
                    gateway.breakers->0[prefix].state == State::Closed,
                )
            }
            &&& gateway.limiter is Some ==> components.contains_key("redis"@)
                && components["redis"@] == JsonMember::Flag(store_answers)
            &&& components.contains_key(name) ==> {
                ||| gateway.limiter is Some && name == "redis"@
                ||| gateway.breakers is Some && exists|p: Seq<char>| #[trigger]
                    gateway.breakers->0.contains_key(p) && name == "backend:"@ + p
            }
            &&& reply.body == json_written(components)
            &&& reply.headers == seq![("content-type"@, "application/json"@)]
            &&& reply.status == 200 || reply.status == 503
            &&& reply.status == 200 <==> {
                &&& gateway.limiter is Some ==> store_answers
                &&& gateway.breakers is Some ==> forall|p: Seq<char>| #[trigger]
                    gateway.breakers->0.contains_key(p) ==> gateway.breakers->0[p].state
                        == State::Closed
            }
        }),
{
    reveal_strlit("redis");
    reveal_strlit("backend:");
    lemma_component_names(prefix, prefix);
    let named = component_name(prefix);
    assert(named[0] == 'b');
    assert("redis"@[0] == 'r');
    if gateway.breakers is Some && gateway.breakers->0.contains_key(prefix) {
        assert(backend_components(gateway.breakers->0).contains_key(named));
    }
}

/// A scrape is answered with the exposition of the metrics, in which the gauge of every
/// breaker shows the state that the breaker is in at that moment. Nothing else in them
/// changes, and nothing else of the gateway.
pub proof fn law_scrapes_show_the_breakers(gateway: ProxyView, prefix: Seq<char>)
    requires
        gateway.metrics is Some,
    ensures
        ({
            let after = gateway.published();
            let metrics = after.metrics->0;
            &&& after.metrics is Some
            &&& gateway.breakers is Some && gateway.breakers->0.contains_key(prefix) ==> {
                &&& metrics.breaker_state.contains_key(prefix)
                &&& metrics.breaker_state[prefix] == match gateway.breakers->0[prefix].state {
                    State::Closed => 0u8,
                    State::HalfOpen => 1u8,
                    State::Open => 2u8,
                }
            }
            &&& !(gateway.breakers is Some && gateway.breakers->0.contains_key(prefix)) ==> (
            metrics.breaker_state.contains_key(prefix)
                == gateway.metrics->0.breaker_state.contains_key(prefix)
                && metrics.breaker_state[prefix] == gateway.metrics->0.breaker_state[prefix])
                || !gateway.metrics->0.breaker_state.contains_key(prefix)
                && !metrics.breaker_state.contains_key(prefix)
            &&& metrics.counters == gateway.metrics->0.counters
            &&& metrics.latencies == gateway.metrics->0.latencies
            &&& metrics.responses == gateway.metrics->0.responses
            &&& after.breakers == gateway.breakers
            &&& after.limiter == gateway.limiter
            &&& after.backends == gateway.backends
            &&& after.auth == gateway.auth
            &&& gateway.scrape().status == 200
            &&& gateway.scrape().headers == seq![
                ("content-type"@, "text/plain; version=0.0.4; charset=utf-8"@),
            ]
            &&& gateway.scrape().body == exposition(metrics)
        }),
{
}

/// The time that a gateway goes by is what the clock of the breaker of the backend shows.
pub proof fn law_gateways_go_by_the_breakers_clocks(
    state: ProxyState,
    prefix: Seq<char>,
    now: nat,
)
    ensures
        state@.breakers is Some && state@.breakers->0.contains_key(prefix) ==> (
        state.clock_shows(prefix, now) <==> state.clocks()->0[prefix].shows(now)),
        !(state@.breakers is Some && state@.breakers->0.contains_key(prefix)) ==> (
        state.clock_shows(prefix, now) <==> now == 0),
{
}

/// A call is timed by the stopwatch that was started with it.
proof fn law_calls_go_by_their_stopwatches(call: BackendCall, nanos: nat)
    ensures
        call.timer is Some ==> {
            &&& call.stopwatch_shows(nanos) <==> call.timer->0.stopwatch().shows(nanos)
            &&& call.is_timed_from_now() <==> call.timer->0.stopwatch().is_started_now()
            &&& call@.timed == Some(call.timer->0.prefix())
        },
        call.timer is None ==> {
            &&& call.stopwatch_shows(nanos) <==> nanos == 0
            &&& call@.timed is None
        },
{
}

/// Forwarding a request asks the breaker of its backend, once, and changes nothing else.
pub proof fn law_forwarding_only_asks_the_breaker(
    gateway: ProxyView,
    path: Seq<char>,
    query: Option<Seq<char>>,
    now: nat,
)
    requires
        gateway.dispatched(path, query, now).1 is Forward,
    ensures
        ({
            let (after, _) = gateway.dispatched(path, query, now);
            let prefix = route_path(path).0;
            &&& after.backends == gateway.backends
            &&& after.auth == gateway.auth
            &&& after.limiter == gateway.limiter
            &&& after.metrics == gateway.metrics
            &&& after.backend_timeout == gateway.backend_timeout
            &&& gateway.breakers is None ==> after.breakers is None
            &&& gateway.breakers is Some ==> after.breakers == Some(
                ask_breaker(gateway.breakers->0, prefix, now).0,
            )
            &&& gateway.breakers is Some ==> ask_breaker(gateway.breakers->0, prefix, now).1
                == Admit::Call
        }),
{
}

/// What came of a call that was not timed is not counted; neither is it where there are no
/// metrics.
pub proof fn law_untimed_calls_are_not_counted(
    gateway: ProxyView,
    call: CallView,
    outcome: CallOutcome,
    now: nat,
    nanos: nat,
)
    requires
        call.timed is None || gateway.metrics is None,
    ensures
        gateway.concluded(call, outcome, now, nanos).0.metrics == gateway.metrics,
{
}

/// Decisions are seen as they are, and so are headers, every one of them in its place.
pub proof fn law_decisions_are_seen_whole(
    rejection: Rejection,
    subject: Option<String>,
    request: CounterRequest,
    reply: Reply,
    call: BackendCall,
    headers: Seq<(String, Vec<u8>)>,
    i: int,
)
    ensures
        Screening::Reject(rejection)@ == ScreeningView::Reject(rejection@),
        Screening::Count(subject, request)@ == (ScreeningView::Count {
            subject: optional_string(subject),
            key: request.key@,
            expire_secs: request.expire_secs as nat,
        }),
        Screening::Pass(subject)@ == ScreeningView::Pass(optional_string(subject)),
        Dispatch::Respond(reply)@ == DispatchView::Respond(reply@),
        Dispatch::Forward(call)@ == DispatchView::Forward(call@),
        optional_reply(Some(reply)) == Some(reply@),
        optional_reply(None) is None,
        raw_header_views(headers).len() == headers.len(),
        0 <= i < headers.len() ==> raw_header_views(headers)[i] == (headers[i].0@, headers[i].1@),
{
}

/// Bodies of up to 32 mebibytes are forwarded.
pub proof fn law_bodies_have_room()
    ensures
        MAX_BODY_BYTES == 32 * 1024 * 1024,
{
}

} // verus!
