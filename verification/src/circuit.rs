//! Per-backend circuit breakers.
//!
//! A breaker is closed while its backend is reachable. A streak of transport
//! failures opens it, and requests then fail fast. Once a cooldown has passed,
//! one request is let through as a probe (half-open): its outcome closes the
//! breaker or opens it again with a fresh cooldown.
//!
//! Only transport failures count as failures. A backend that answers with an
//! HTTP error is a backend that is up.

use vstd::prelude::*;

use crate::config::{route_views, Route, RouteView};
use crate::table::Table;
use crate::time::{Duration, Stopwatch, NANOS_PER_SEC};

verus! {

/// The three states of the breaker of one backend.
#[derive(Debug, Clone, Copy, PartialEq, Eq, Structural)]
pub enum State {
    /// Normal operation; failures are counted.
    Closed,
    /// The backend is presumed down; requests fail fast.
    Open,
    /// The cooldown has passed; a single probe request is under way.
    HalfOpen,
}

/// What a caller must do with a request.
#[derive(Debug, Clone, Copy, PartialEq, Eq, Structural)]
pub enum Admit {
    /// Forward to the backend, and report the outcome back with `record`.
    Call,
    /// Do not touch the backend; fail fast.
    ShortCircuit,
}

/// Thresholds and timing of one breaker.
#[derive(Debug, Clone, Copy)]
pub struct BreakerConfig {
    /// Consecutive transport failures that open the breaker.
    pub failure_threshold: u32,
    /// How long an open breaker waits before it allows a probe.
    pub cooldown: Duration,
}

impl Default for BreakerConfig {
    fn default() -> (config: Self)
        ensures
            config.failure_threshold == 5,
            config.cooldown@ == 30 * NANOS_PER_SEC,
    {
        BreakerConfig { failure_threshold: 5, cooldown: Duration::from_secs(30) }
    }
}

/// What a breaker is: its settings and its memory. Times are nanoseconds on
/// the breaker's own clock.
pub struct BreakerView {
    pub threshold: nat,
    pub cooldown: nat,
    pub state: State,
    pub failures: nat,
    pub opened_at: Option<nat>,
}

/// The time from `since` to `now`, none where the clock has not moved on.
pub open spec fn time_between(since: nat, now: nat) -> nat {
    if now >= since {
        (now - since) as nat
    } else {
        0
    }
}

impl BreakerView {
    /// A breaker that has seen nothing yet.
    pub open spec fn fresh(threshold: nat, cooldown: nat) -> BreakerView {
        BreakerView { threshold, cooldown, state: State::Closed, failures: 0, opened_at: None }
    }

    /// What every breaker keeps: a streak that has not reached the threshold
    /// while closed, no streak and an opening time otherwise.
    pub open spec fn valid(self) -> bool {
        match self.state {
            State::Closed => {
                &&& self.failures == 0 || self.failures < self.threshold
                &&& self.opened_at is None
            },
            _ => self.failures == 0 && self.opened_at is Some,
        }
    }

    /// Whether an open breaker has waited long enough at `now`.
    pub open spec fn cooled_down(self, now: nat) -> bool {
        self.opened_at is Some && time_between(self.opened_at->0, now) >= self.cooldown
    }

    /// Asking at `now` whether a request may pass: the breaker afterwards, and
    /// the answer.
    pub open spec fn ask(self, now: nat) -> (BreakerView, Admit) {
        match self.state {
            State::Closed => (self, Admit::Call),
            State::Open => if self.cooled_down(now) {
                (BreakerView { state: State::HalfOpen, ..self }, Admit::Call)
            } else {
                (self, Admit::ShortCircuit)
            },
            State::HalfOpen => (self, Admit::ShortCircuit),
        }
    }

    /// The breaker opened at `now`.
    pub open spec fn opened(self, now: nat) -> BreakerView {
        BreakerView { state: State::Open, failures: 0, opened_at: Some(now), ..self }
    }

    /// The breaker after the outcome of a call was reported at `now`.
    pub open spec fn record(self, success: bool, now: nat) -> BreakerView {
        match self.state {
            State::Closed => if success {
                BreakerView { failures: 0, ..self }
            } else if self.failures + 1 >= self.threshold {
                self.opened(now)
            } else {
                BreakerView { failures: self.failures + 1, ..self }
            },
            State::HalfOpen => if success {
                BreakerView { state: State::Closed, failures: 0, opened_at: None, ..self }
            } else {
                self.opened(now)
            },
            State::Open => self,
        }
    }

    /// The breaker after it was asked at each of `times`, in turn.
    pub open spec fn after_asks(self, times: Seq<nat>) -> BreakerView
        decreases times.len(),
    {
        if times.len() == 0 {
            self
        } else {
            self.after_asks(times.drop_last()).ask(times.last()).0
        }
    }

    /// What the breaker says when it is asked at `times[i]`, after all that was asked before.
    pub open spec fn answer_to(self, times: Seq<nat>, i: int) -> Admit {
        self.after_asks(times.take(i)).ask(times[i]).1
    }

    /// The breaker after one failure at each of `times`, in turn.
    pub open spec fn after_failures(self, times: Seq<nat>) -> BreakerView
        decreases times.len(),
    {
        if times.len() == 0 {
            self
        } else {
            self.after_failures(times.drop_last()).record(false, times.last())
        }
    }
}

/// Circuit breaker of one backend. There is no copying it: a copy would have a probe of
/// its own.
#[derive(Debug)]
pub struct CircuitBreaker {
    cfg: BreakerConfig,
    clock: Stopwatch,
    state: State,
    consecutive_failures: u32,
    opened_at: Option<Duration>,
}

impl View for CircuitBreaker {
    type V = BreakerView;

    closed spec fn view(&self) -> BreakerView {
        BreakerView {
            threshold: self.cfg.failure_threshold as nat,
            cooldown: self.cfg.cooldown@,
            state: self.state,
            failures: self.consecutive_failures as nat,
            opened_at: match self.opened_at {
                Some(at) => Some(at@),
                None => None,
            },
        }
    }
}

impl CircuitBreaker {
    #[verifier::type_invariant]
    closed spec fn valid(&self) -> bool {
        self@.valid()
    }

    /// The clock that the breaker's times are read from. It is started when the breaker is
    /// made, and stays the same.
    pub closed spec fn clock(&self) -> Stopwatch {
        self.clock
    }

    /// This breaker once more, to put in its own place.
    fn successor(&self) -> (breaker: Self)
        ensures
            breaker@ == self@,
            breaker.clock() == self.clock(),
    {
        proof {
            use_type_invariant(self);
        }
        CircuitBreaker {
            cfg: self.cfg,
            clock: self.clock,
            state: self.state,
            consecutive_failures: self.consecutive_failures,
            opened_at: self.opened_at,
        }
    }

    /// A closed breaker without a failure.
    pub fn new(cfg: BreakerConfig) -> (breaker: Self)
        ensures
            breaker@ == BreakerView::fresh(cfg.failure_threshold as nat, cfg.cooldown@),
            breaker.clock().is_started_now(),
    {
        CircuitBreaker {
            cfg,
            clock: Stopwatch::start(),
            state: State::Closed,
            consecutive_failures: 0,
            opened_at: None,
        }
    }

    /// What the breaker would answer at `now`, on its own clock, to a request that asks
    /// whether it may reach the backend. Nobody becomes a probe by this.
    pub fn would_admit_at(&self, now: Duration) -> (answer: Admit)
        ensures
            answer == self@.ask(now@).1,
    {
        match self.state {
            State::Closed => Admit::Call,
            State::Open => if self.has_cooled_down(now) {
                Admit::Call
            } else {
                Admit::ShortCircuit
            },
            State::HalfOpen => Admit::ShortCircuit,
        }
    }

    fn has_cooled_down(&self, now: Duration) -> (cooled: bool)
        ensures
            cooled == self@.cooled_down(now@),
    {
        match self.opened_at {
            Some(at) => {
                let since: u128 = at.as_nanos();
                let reached: u128 = now.as_nanos();
                let passed: u128 = if reached >= since {
                    reached - since
                } else {
                    0
                };
                passed >= self.cfg.cooldown.as_nanos()
            },
            None => false,
        }
    }

    /// Asks at `now`, on the breaker's own clock, whether a request may reach
    /// the backend.
    pub fn try_admit_at(&mut self, now: Duration) -> (answer: Admit)
        ensures
            (final(self)@, answer) == old(self)@.ask(now@),
            final(self)@.valid(),
            final(self).clock() == old(self).clock(),
    {
        proof {
            use_type_invariant(&*self);
        }
        match self.state {
            State::Closed => Admit::Call,
            State::Open => {
                if self.has_cooled_down(now) {
                    self.state = State::HalfOpen;
                    Admit::Call
                } else {
                    Admit::ShortCircuit
                }
            },
            State::HalfOpen => Admit::ShortCircuit,
        }
    }

    /// The time on the breaker's own clock, which starts when the breaker is made.
    pub fn now(&self) -> (now: Duration)
        ensures
            self.clock().shows(now@),
    {
        self.clock.elapsed()
    }

    /// Asks, by the breaker's own clock, whether this request may reach the backend.
    /// While half-open exactly one caller is told to call; everyone else short-circuits
    /// until that probe is reported.
    pub fn try_admit(&mut self) -> (answer: Admit)
        ensures
            exists|now: nat|
                old(self).clock().shows(now) && #[trigger] old(self)@.ask(now) == (
                    final(self)@,
                    answer,
                ),
            final(self).clock() == old(self).clock(),
    {
        let now = self.now();
        let answer = self.try_admit_at(now);
        assert(old(self)@.ask(now@) == (self@, answer));
        answer
    }

    /// Reports at `now`, on the breaker's own clock, how an admitted call came
    /// out. A report to an open breaker changes nothing: it cannot silence a
    /// breaker that is open for a reason.
    pub fn record_at(&mut self, success: bool, now: Duration)
        ensures
            final(self)@ == old(self)@.record(success, now@),
            final(self)@.valid(),
            final(self).clock() == old(self).clock(),
    {
        proof {
            use_type_invariant(&*self);
        }
        match self.state {
            State::Closed => {
                if success {
                    self.consecutive_failures = 0;
                } else if self.consecutive_failures >= self.cfg.failure_threshold
                    || self.consecutive_failures + 1 >= self.cfg.failure_threshold {
                    self.open(now);
                } else {
                    self.consecutive_failures = self.consecutive_failures + 1;
                }
            },
            State::HalfOpen => {
                if success {
                    *self = CircuitBreaker {
                        cfg: self.cfg,
                        clock: self.clock,
                        state: State::Closed,
                        consecutive_failures: 0,
                        opened_at: None,
                    };
                } else {
                    self.open(now);
                }
            },
            State::Open => {},
        }
    }

    /// Reports how an admitted call came out, by the breaker's own clock.
    pub fn record(&mut self, success: bool)
        ensures
            exists|now: nat|
                old(self).clock().shows(now) && final(self)@ == #[trigger] old(self)@.record(
                    success,
                    now,
                ),
            final(self).clock() == old(self).clock(),
    {
        let now = self.now();
        self.record_at(success, now);
        assert(self@ == old(self)@.record(success, now@));
    }

    fn open(&mut self, now: Duration)
        ensures
            final(self)@ == old(self)@.opened(now@),
            final(self).clock() == old(self).clock(),
    {
        *self = CircuitBreaker {
            cfg: self.cfg,
            clock: self.clock,
            state: State::Open,
            consecutive_failures: 0,
            opened_at: Some(now),
        };
    }

    /// Current state.
    pub fn state(&self) -> (state: State)
        ensures
            state == self@.state,
            self@.valid(),
    {
        proof {
            use_type_invariant(self);
        }
        self.state
    }
}

/// The prefixes of a list of routes, each with the same value: one entry per
/// prefix that occurs.
pub open spec fn one_per_prefix<T>(routes: Seq<RouteView>, value: T) -> Map<Seq<char>, T> {
    Map::new(
        |prefix: Seq<char>| exists|i: int| 0 <= i < routes.len() && routes[i].prefix == prefix,
        |prefix: Seq<char>| value,
    )
}

/// Asking the breaker under `prefix` at `now`: the breakers afterwards, and the answer.
/// Where there is no such breaker, a request may pass.
pub open spec fn ask_breaker(
    breakers: Map<Seq<char>, BreakerView>,
    prefix: Seq<char>,
    now: nat,
) -> (Map<Seq<char>, BreakerView>, Admit) {
    if breakers.contains_key(prefix) {
        let (breaker, answer) = breakers[prefix].ask(now);
        (breakers.insert(prefix, breaker), answer)
    } else {
        (breakers, Admit::Call)
    }
}

/// The breakers after the one under `prefix`, if there is one, was told at `now` how a
/// call came out.
pub open spec fn inform_breaker(
    breakers: Map<Seq<char>, BreakerView>,
    prefix: Seq<char>,
    success: bool,
    now: nat,
) -> Map<Seq<char>, BreakerView> {
    if breakers.contains_key(prefix) {
        breakers.insert(prefix, breakers[prefix].record(success, now))
    } else {
        breakers
    }
}

/// One breaker per configured backend, keyed by route prefix.
#[derive(Debug)]
pub struct Breakers {
    per_backend: Table<CircuitBreaker>,
}

impl View for Breakers {
    type V = Map<Seq<char>, BreakerView>;

    closed spec fn view(&self) -> Map<Seq<char>, BreakerView> {
        self.per_backend@.map_values(|breaker: CircuitBreaker| breaker@)
    }
}

impl Breakers {
    /// The clock of each breaker.
    pub closed spec fn clocks(&self) -> Map<Seq<char>, Stopwatch> {
        self.per_backend@.map_values(|breaker: CircuitBreaker| breaker.clock())
    }

    /// What can be read off the clock of the breaker under `prefix`; zero where there is
    /// none.
    pub open spec fn clock_shows(&self, prefix: Seq<char>, now: nat) -> bool {
        if self@.contains_key(prefix) {
            self.clocks()[prefix].shows(now)
        } else {
            now == 0
        }
    }

    /// A fresh breaker per route. All share the same settings.
    pub fn new(routes: &Vec<Route>, cfg: &BreakerConfig) -> (breakers: Self)
        ensures
            breakers@ == one_per_prefix(
                route_views(routes@),
                BreakerView::fresh(cfg.failure_threshold as nat, cfg.cooldown@),
            ),
            forall|prefix: Seq<char>| #[trigger]
                breakers@.contains_key(prefix) ==> breakers.clocks()[prefix].is_started_now(),
    {
        let mut breakers = Breakers { per_backend: Table::new() };
        let ghost fresh = BreakerView::fresh(cfg.failure_threshold as nat, cfg.cooldown@);
        let ghost views = route_views(routes@);
        let mut i: usize = 0;
        assert(breakers@ =~= one_per_prefix(views.take(0), fresh));
        while i < routes.len()
            invariant
                0 <= i <= routes@.len(),
                views == route_views(routes@),
                fresh == BreakerView::fresh(cfg.failure_threshold as nat, cfg.cooldown@),
                breakers@ == one_per_prefix(views.take(i as int), fresh),
                forall|prefix: Seq<char>| #[trigger]
                    breakers@.contains_key(prefix) ==> breakers.clocks()[prefix].is_started_now(),
            decreases routes@.len() - i,
        {
            let ghost before = breakers@;
            let breaker = CircuitBreaker::new(*cfg);
            breakers.per_backend.insert(routes[i].prefix.clone(), breaker);
            proof {
                let now = views.take(i + 1);
                assert(now =~= views.take(i as int).push(views[i as int]));
                assert(breakers@ =~= before.insert(routes@[i as int].prefix@, fresh));
                assert forall|prefix: Seq<char>|
                    #[trigger] one_per_prefix(now, fresh).contains_key(prefix)
                        == breakers@.contains_key(prefix) by {
                    if prefix == views[i as int].prefix {
                        assert(now[i as int].prefix == prefix);
                    } else if before.contains_key(prefix) {
                        let k = choose|k: int|
                            0 <= k < views.take(i as int).len() && views.take(i as int)[k].prefix
                                == prefix;
                        assert(now[k].prefix == prefix);
                    } else if one_per_prefix(now, fresh).contains_key(prefix) {
                        let k = choose|k: int| 0 <= k < now.len() && now[k].prefix == prefix;
                        assert(views.take(i as int)[k].prefix == prefix);
                    }
                }
                assert(breakers@.dom() =~= one_per_prefix(now, fresh).dom());
                assert forall|prefix: Seq<char>| #[trigger]
                    breakers@.contains_key(prefix) implies breakers@[prefix] == fresh by {
                    if prefix != views[i as int].prefix {
                        assert(before.contains_key(prefix));
                    }
                }
                assert(breakers@ =~= one_per_prefix(now, fresh));
            }
            i += 1;
        }
        assert(views.take(routes@.len() as int) =~= views);
        breakers
    }

    /// The breaker of the route under `prefix`.
    pub fn get(&self, prefix: &str) -> (breaker: Option<&CircuitBreaker>)
        ensures
            breaker is Some <==> self@.contains_key(prefix@),
            breaker is Some ==> breaker->0@ == self@[prefix@],
            breaker is Some ==> breaker->0.clock() == self.clocks()[prefix@],
    {
        self.per_backend.get(prefix)
    }

    /// The time on the clock of the breaker under `prefix`; zero where there is none.
    pub fn now(&self, prefix: &str) -> (now: Duration)
        ensures
            self.clock_shows(prefix@, now@),
    {
        match self.per_backend.get(prefix) {
            Some(breaker) => breaker.now(),
            None => Duration::from_secs(0),
        }
    }

    /// What the breaker under `prefix` would answer at `now`, on its own clock. Where there
    /// is no such breaker, a request may reach the backend.
    pub fn would_admit_at(&self, prefix: &str, now: Duration) -> (answer: Admit)
        ensures
            answer == ask_breaker(self@, prefix@, now@).1,
    {
        match self.per_backend.get(prefix) {
            Some(breaker) => breaker.would_admit_at(now),
            None => Admit::Call,
        }
    }

    /// Asks the breaker under `prefix` at `now`, on its own clock, whether a request may
    /// reach the backend. Where there is no such breaker, it may.
    pub fn try_admit_at(&mut self, prefix: &str, now: Duration) -> (answer: Admit)
        ensures
            (final(self)@, answer) == ask_breaker(old(self)@, prefix@, now@),
            final(self).clocks() == old(self).clocks(),
    {
        let mut breaker = match self.per_backend.get(prefix) {
            Some(breaker) => breaker.successor(),
            None => {
                return Admit::Call;
            },
        };
        let answer = breaker.try_admit_at(now);
        self.per_backend.insert(prefix.to_owned(), breaker);
        assert(self@ =~= ask_breaker(old(self)@, prefix@, now@).0);
        assert(self.clocks() =~= old(self).clocks());
        answer
    }

    /// Asks the breaker under `prefix`, by its own clock, whether a request may reach the
    /// backend.
    pub fn try_admit(&mut self, prefix: &str) -> (answer: Admit)
        ensures
            exists|now: nat|
                old(self).clock_shows(prefix@, now) && (final(self)@, answer)
                    == #[trigger] ask_breaker(old(self)@, prefix@, now),
            final(self).clocks() == old(self).clocks(),
    {
        let now = self.now(prefix);
        let answer = self.try_admit_at(prefix, now);
        assert((self@, answer) == ask_breaker(old(self)@, prefix@, now@));
        answer
    }

    /// Reports to the breaker under `prefix` at `now`, on its own clock, how an admitted
    /// call came out.
    pub fn record_at(&mut self, prefix: &str, success: bool, now: Duration)
        ensures
            final(self)@ == inform_breaker(old(self)@, prefix@, success, now@),
            final(self).clocks() == old(self).clocks(),
    {
        let mut breaker = match self.per_backend.get(prefix) {
            Some(breaker) => breaker.successor(),
            None => {
                return ;
            },
        };
        breaker.record_at(success, now);
        self.per_backend.insert(prefix.to_owned(), breaker);
        assert(self@ =~= inform_breaker(old(self)@, prefix@, success, now@));
        assert(self.clocks() =~= old(self).clocks());
    }

    /// Reports to the breaker under `prefix`, by its own clock, how an admitted call came
    /// out.
    pub fn record(&mut self, prefix: &str, success: bool)
        ensures
            exists|now: nat|
                old(self).clock_shows(prefix@, now) && final(self)@
                    == #[trigger] inform_breaker(old(self)@, prefix@, success, now),
            final(self).clocks() == old(self).clocks(),
    {
        let now = self.now(prefix);
        self.record_at(prefix, success, now);
        assert(self@ == inform_breaker(old(self)@, prefix@, success, now@));
    }

    /// The state of every breaker.
    pub fn states(&self) -> (states: Table<State>)
        ensures
            states@ == self@.map_values(|breaker: BreakerView| breaker.state),
    {
        let n: usize = self.per_backend.len();
        let ghost keys = self.per_backend.keys();
        let mut states: Table<State> = Table::new();
        let mut i: usize = 0;
        while i < n
            invariant
                0 <= i <= n,
                n == keys.len(),
                keys == self.per_backend.keys(),
                forall|prefix: Seq<char>| #[trigger]
                    states@.contains_key(prefix) <==> keys.take(i as int).contains(prefix),
                forall|prefix: Seq<char>| #[trigger]
                    states@.contains_key(prefix) ==> states@[prefix] == self@[prefix].state,
            decreases n - i,
        {
            let prefix = self.per_backend.key_at(i);
            let breaker = self.per_backend.value_at(i);
            let ghost before = states@;
            states.insert(prefix.clone(), breaker.state());
            proof {
                assert(keys.take(i + 1) =~= keys.take(i as int).push(prefix@));
                assert forall|p: Seq<char>| #[trigger] states@.contains_key(p) <==> keys.take(
                    i + 1,
                ).contains(p) by {
                    if p == prefix@ {
                        assert(keys.take(i + 1)[i as int] == p);
                    } else if keys.take(i as int).contains(p) {
                        let k = keys.take(i as int).index_of(p);
                        assert(keys.take(i + 1)[k] == p);
                    } else if keys.take(i + 1).contains(p) {
                        let k = keys.take(i + 1).index_of(p);
                        assert(keys.take(i as int)[k] == p);
                    }
                }
            }
            i += 1;
        }
        proof {
            assert(keys.take(n as int) =~= keys);
            assert(states@ =~= self@.map_values(|breaker: BreakerView| breaker.state));
        }
        states
    }
}

/// Every step of a breaker keeps what breakers keep.
pub proof fn law_steps_keep_breakers_valid(breaker: BreakerView, success: bool, now: nat)
    requires
        breaker.valid(),
    ensures
        breaker.ask(now).0.valid(),
        breaker.record(success, now).valid(),
{
}

/// A streak of consecutive failures below the threshold leaves a closed breaker
/// closed; the failure that completes the streak opens it, at that moment.
pub proof fn law_streak_opens_the_breaker(breaker: BreakerView, times: Seq<nat>)
    requires
        breaker.state == State::Closed,
        breaker.failures == 0,
        0 < breaker.threshold,
        times.len() <= breaker.threshold,
    ensures
        times.len() < breaker.threshold ==> breaker.after_failures(times) == (BreakerView {
            failures: times.len(),
            ..breaker
        }),
        times.len() == breaker.threshold ==> breaker.after_failures(times) == breaker.opened(
            times.last(),
        ),
        times.len() == breaker.threshold ==> breaker.after_failures(times) == (BreakerView {
            threshold: breaker.threshold,
            cooldown: breaker.cooldown,
            state: State::Open,
            failures: 0,
            opened_at: Some(times.last()),
        }),
    decreases times.len(),
{
    if times.len() > 0 {
        law_streak_opens_the_breaker(breaker, times.drop_last());
    }
}

/// A success breaks the streak: the breaker is as one that never failed.
pub proof fn law_success_breaks_the_streak(breaker: BreakerView, times: Seq<nat>, now: nat)
    requires
        breaker.state == State::Closed,
        breaker.failures == 0,
        times.len() < breaker.threshold,
    ensures
        breaker.after_failures(times).record(true, now) == breaker,
{
    law_streak_opens_the_breaker(breaker, times);
}

/// While the cooldown lasts, an open breaker turns every request away and stays
/// as it is.
pub proof fn law_open_breaker_fails_fast(breaker: BreakerView, now: nat)
    requires
        breaker.state == State::Open,
        breaker.opened_at is Some,
        time_between(breaker.opened_at->0, now) < breaker.cooldown,
    ensures
        breaker.ask(now) == (breaker, Admit::ShortCircuit),
{
}

/// Once the cooldown has passed, the first caller becomes the probe, and every
/// caller after it is turned away for as long as the probe is under way: of all that
/// ask before the probe is reported, exactly one may call.
pub proof fn law_only_one_probe(breaker: BreakerView, times: Seq<nat>)
    requires
        breaker.state == State::Open,
        times.len() > 0,
        breaker.cooled_down(times[0]),
    ensures
        breaker.answer_to(times, 0) == Admit::Call,
        forall|i: int|
            1 <= i < times.len() ==> #[trigger] breaker.answer_to(times, i)
                == Admit::ShortCircuit,
        breaker.after_asks(times) == (BreakerView { state: State::HalfOpen, ..breaker }),
    decreases times.len(),
{
    let before = times.drop_last();
    assert(times.take(0).len() == 0);
    if before.len() > 0 {
        law_only_one_probe(breaker, before);
        assert forall|i: int| 1 <= i < times.len() implies #[trigger] breaker.answer_to(times, i)
            == Admit::ShortCircuit by {
            if i < before.len() {
                assert(before.take(i) =~= times.take(i));
                assert(breaker.answer_to(before, i) == Admit::ShortCircuit);
            } else {
                assert(times.take(i) =~= before);
            }
        }
    }
}

/// The probe decides: a success closes the breaker, as good as new; a failure
/// opens it again with a fresh cooldown, which turns requests away until it has
/// passed in full.
pub proof fn law_probe_decides(breaker: BreakerView, now: nat, later: nat)
    requires
        breaker.state == State::HalfOpen,
    ensures
        breaker.record(true, now) == BreakerView::fresh(breaker.threshold, breaker.cooldown),
        breaker.record(false, now) == breaker.opened(now),
        time_between(now, later) < breaker.cooldown ==> breaker.record(false, now).ask(later)
            == (breaker.record(false, now), Admit::ShortCircuit),
{
}

/// A report that reaches an open breaker changes nothing.
pub proof fn law_open_breaker_ignores_reports(breaker: BreakerView, success: bool, now: nat)
    requires
        breaker.state == State::Open,
    ensures
        breaker.record(success, now) == breaker,
{
}

/// What happens to the breaker of one backend leaves those of all others alone.
pub proof fn law_breakers_are_independent(
    breakers: Map<Seq<char>, BreakerView>,
    prefix: Seq<char>,
    other: Seq<char>,
    success: bool,
    now: nat,
)
    requires
        breakers.contains_key(other),
        prefix != other,
    ensures
        inform_breaker(breakers, prefix, success, now).contains_key(other),
        inform_breaker(breakers, prefix, success, now)[other] == breakers[other],
        ask_breaker(breakers, prefix, now).0.contains_key(other),
        ask_breaker(breakers, prefix, now).0[other] == breakers[other],
{
}

/// Every breaker stays valid, whichever is asked or informed, and none appears or goes
/// away.
pub proof fn law_breakers_stay_valid(
    breakers: Map<Seq<char>, BreakerView>,
    prefix: Seq<char>,
    success: bool,
    now: nat,
)
    requires
        forall|p: Seq<char>| #[trigger] breakers.contains_key(p) ==> breakers[p].valid(),
    ensures
        ask_breaker(breakers, prefix, now).0.dom() == breakers.dom(),
        inform_breaker(breakers, prefix, success, now).dom() == breakers.dom(),
        forall|p: Seq<char>| #[trigger]
            breakers.contains_key(p) ==> ask_breaker(breakers, prefix, now).0[p].valid()
                && inform_breaker(breakers, prefix, success, now)[p].valid(),
{
    assert(ask_breaker(breakers, prefix, now).0.dom() =~= breakers.dom());
    assert(inform_breaker(breakers, prefix, success, now).dom() =~= breakers.dom());
}

/// A new breaker keeps its settings as they are given, is closed, has no failure to its
/// name, and lets requests pass at any time.
pub proof fn law_new_breakers_let_pass(threshold: nat, cooldown: nat, now: nat)
    ensures
        BreakerView::fresh(threshold, cooldown).threshold == threshold,
        BreakerView::fresh(threshold, cooldown).cooldown == cooldown,
        BreakerView::fresh(threshold, cooldown).state == State::Closed,
        BreakerView::fresh(threshold, cooldown).failures == 0,
        BreakerView::fresh(threshold, cooldown).opened_at is None,
        BreakerView::fresh(threshold, cooldown).ask(now).1 == Admit::Call,
        BreakerView::fresh(threshold, cooldown).ask(now).0 == BreakerView::fresh(
            threshold,
            cooldown,
        ),
{
}

/// The cooldown ends, however long it is: a breaker that was opened at `opened` lets the
/// first request through that asks once the cooldown has passed in full, however much
/// later, and is then half-open. Until then it turns requests away and stays as it is.
pub proof fn law_cooldown_ends(breaker: BreakerView, opened: nat, now: nat)
    requires
        breaker.state == State::Open,
        breaker.opened_at == Some(opened),
    ensures
        now >= opened + breaker.cooldown ==> {
            let (after, answer) = breaker.ask(now);
            &&& answer == Admit::Call
            &&& after.state == State::HalfOpen
            &&& after.opened_at == Some(opened)
            &&& after.threshold == breaker.threshold
            &&& after.cooldown == breaker.cooldown
            &&& after.failures == breaker.failures
        },
        now < opened + breaker.cooldown && breaker.cooldown > 0 ==> breaker.ask(now) == (
            breaker,
            Admit::ShortCircuit,
        ),
{
}

/// A closed breaker lets every request pass, and a half-open one none, at whatever time
/// they ask. Neither changes by being asked.
pub proof fn law_only_open_breakers_change_when_asked(breaker: BreakerView, now: nat)
    ensures
        breaker.state == State::Closed ==> breaker.ask(now) == (breaker, Admit::Call),
        breaker.state == State::HalfOpen ==> breaker.ask(now) == (breaker, Admit::ShortCircuit),
{
}

/// What a report does, by the state of the breaker and its streak. The settings always
/// stay as they are.
pub proof fn law_reports_move_the_breaker(breaker: BreakerView, success: bool, now: nat)
    ensures
        breaker.record(success, now).threshold == breaker.threshold,
        breaker.record(success, now).cooldown == breaker.cooldown,
        breaker.state == State::Closed && success ==> {
            &&& breaker.record(success, now).state == State::Closed
            &&& breaker.record(success, now).failures == 0
        },
        breaker.state == State::Closed && !success && breaker.failures + 1 < breaker.threshold
            ==> {
            &&& breaker.record(success, now).state == State::Closed
            &&& breaker.record(success, now).failures == breaker.failures + 1
        },
        breaker.state == State::Closed && !success && breaker.failures + 1 >= breaker.threshold
            ==> {
            &&& breaker.record(success, now).state == State::Open
            &&& breaker.record(success, now).failures == 0
            &&& breaker.record(success, now).opened_at == Some(now)
        },
        breaker.state == State::HalfOpen && success ==> {
            &&& breaker.record(success, now).state == State::Closed
            &&& breaker.record(success, now).failures == 0
            &&& breaker.record(success, now).opened_at is None
        },
        breaker.state == State::HalfOpen && !success ==> {
            &&& breaker.record(success, now).state == State::Open
            &&& breaker.record(success, now).failures == 0
            &&& breaker.record(success, now).opened_at == Some(now)
        },
        breaker.state == State::Open ==> breaker.record(success, now) == breaker,
{
}

/// The life of a breaker, for every threshold and every cooldown. As many failures in a
/// row as the threshold says, the last of them at `opened`, cut the backend off until the
/// cooldown has passed in full; fewer do not. The first request after that is the probe.
/// If it is answered, at `decided`, requests pass again at any time, and the streak starts
/// over. If it fails, the backend is cut off for another whole cooldown, and then probed
/// again.
pub proof fn law_life_of_a_breaker(
    threshold: nat,
    cooldown: nat,
    failures: Seq<nat>,
    probed: nat,
    decided: nat,
    later: nat,
)
    requires
        0 < threshold,
        0 < cooldown,
        0 < failures.len() <= threshold,
        probed >= failures.last() + cooldown,
    ensures
        ({
            let broken = BreakerView::fresh(threshold, cooldown).after_failures(failures);
            let opened = failures.last();
            let probing = broken.ask(probed).0;
            let closed = probing.record(true, decided);
            let reopened = probing.record(false, decided);
            &&& failures.len() < threshold ==> broken.ask(later).1 == Admit::Call
            &&& failures.len() == threshold ==> {
                &&& later < opened + cooldown ==> broken.ask(later).1 == Admit::ShortCircuit
                &&& later >= opened + cooldown ==> broken.ask(later).1 == Admit::Call
                &&& probing.ask(later).1 == Admit::ShortCircuit
                &&& closed.ask(later).1 == Admit::Call
                &&& closed == BreakerView::fresh(threshold, cooldown)
                &&& later < decided + cooldown ==> reopened.ask(later).1
                    == Admit::ShortCircuit
                &&& later >= decided + cooldown ==> reopened.ask(later).1 == Admit::Call
            }
        }),
{
    law_streak_opens_the_breaker(BreakerView::fresh(threshold, cooldown), failures);
}

/// Asking or informing the breakers reaches the breaker under the prefix, as asking or
/// informing that breaker itself, and no other. Without one, every request may pass and
/// nothing changes.
pub proof fn law_the_breaker_of_the_prefix_decides(
    breakers: Map<Seq<char>, BreakerView>,
    prefix: Seq<char>,
    success: bool,
    now: nat,
)
    ensures
        breakers.contains_key(prefix) ==> {
            &&& ask_breaker(breakers, prefix, now).1 == breakers[prefix].ask(now).1
            &&& ask_breaker(breakers, prefix, now).0[prefix] == breakers[prefix].ask(now).0
            &&& inform_breaker(breakers, prefix, success, now)[prefix]
                == breakers[prefix].record(success, now)
        },
        !breakers.contains_key(prefix) ==> {
            &&& ask_breaker(breakers, prefix, now) == (breakers, Admit::Call)
            &&& inform_breaker(breakers, prefix, success, now) == breakers
        },
        ask_breaker(breakers, prefix, now).0.dom() == breakers.dom(),
        inform_breaker(breakers, prefix, success, now).dom() == breakers.dom(),
        forall|other: Seq<char>| #[trigger]
            breakers.contains_key(other) && other != prefix ==> ask_breaker(
                breakers,
                prefix,
                now,
            ).0[other] == breakers[other] && inform_breaker(breakers, prefix, success, now)[other]
                == breakers[other],
{
    assert(ask_breaker(breakers, prefix, now).0.dom() =~= breakers.dom());
    assert(inform_breaker(breakers, prefix, success, now).dom() =~= breakers.dom());
}

/// Every route has its entry, whatever its place in the list, and there are no others.
pub proof fn law_every_route_has_its_entry<T>(routes: Seq<RouteView>, value: T, i: int)
    ensures
        0 <= i < routes.len() ==> one_per_prefix(routes, value).contains_key(routes[i].prefix),
        forall|prefix: Seq<char>| #[trigger]
            one_per_prefix(routes, value).contains_key(prefix) ==> one_per_prefix(
                routes,
                value,
            )[prefix] == value && exists|k: int|
                0 <= k < routes.len() && routes[k].prefix == prefix,
{
}

/// Of all that ask an open breaker from the end of its cooldown on, and before the probe is
/// reported, the first may call, and only the first.
pub proof fn law_one_probe_after_the_cooldown(breaker: BreakerView, opened: nat, times: Seq<nat>)
    requires
        breaker.state == State::Open,
        breaker.opened_at == Some(opened),
        times.len() > 0,
        times[0] >= opened + breaker.cooldown,
    ensures
        breaker.answer_to(times, 0) == Admit::Call,
        forall|i: int|
            1 <= i < times.len() ==> #[trigger] breaker.answer_to(times, i)
                == Admit::ShortCircuit,
        breaker.after_asks(times) == (BreakerView { state: State::HalfOpen, ..breaker }),
{
    law_only_one_probe(breaker, times);
}

/// The time that a breaker goes by is what its own clock shows.
pub proof fn law_breakers_go_by_their_own_clocks(
    breakers: Breakers,
    prefix: Seq<char>,
    now: nat,
)
    ensures
        breakers@.contains_key(prefix) ==> (breakers.clock_shows(prefix, now)
            <==> breakers.clocks()[prefix].shows(now)),
        !breakers@.contains_key(prefix) ==> (breakers.clock_shows(prefix, now) <==> now == 0),
{
}

} // verus!
