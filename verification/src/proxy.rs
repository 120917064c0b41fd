//! The course of a proxied request, from its arrival to its answer.
//!
//! A request is taken from step to step: what has just happened to it goes in, what to do
//! next comes out. What it has passed so far is held in values that nobody else can make,
//! so that no step can be left out.

use vstd::prelude::*;
use vstd::string::*;

use crate::auth::{is_unix_now, unix_now};
use crate::circuit::{Admit, BreakerView};
use crate::config::RouteView;
use crate::middleware_auth::{bearer_verdict, Rejection, RejectionView};
use crate::ratelimit::{CounterReply, CounterRequest};
use crate::reply::{Reply, ReplyView};
use crate::router::{
    law_fresh_gateway_is_well_labelled, law_requests_cannot_grow_the_metrics, lemma_query_part,
    limited_reply, query_part, route_path, unreadable_body_reply,
};
use crate::router::{split_path, BackendCall, CallOutcome, Dispatch, ProxyState, Screening};
use crate::router::{CallView, DispatchView, ProxyView, ScreeningView};
use crate::text::{borrowed, debug_text, optional_string, optional_text};
use crate::time::Duration;

verus! {

/// A request as it comes in, as far as it is decided on.
#[derive(Debug)]
pub struct Arrival {
    pub path: String,
    pub query: Option<String>,
    /// The `Authorization` header.
    pub authorization: Option<String>,
    /// The address of the client, if it is known.
    pub client_ip: Option<String>,
}

/// A request as it comes in, by its characters.
pub struct ArrivalView {
    pub path: Seq<char>,
    pub query: Option<Seq<char>>,
    pub authorization: Option<Seq<char>>,
    pub client_ip: Option<Seq<char>>,
}

impl View for Arrival {
    type V = ArrivalView;

    open spec fn view(&self) -> ArrivalView {
        ArrivalView {
            path: self.path@,
            query: optional_string(self.query),
            authorization: optional_string(self.authorization),
            client_ip: optional_string(self.client_ip),
        }
    }
}

/// What is asked for, and on whose behalf.
pub struct ErrandView {
    pub path: Seq<char>,
    pub query: Option<Seq<char>>,
    pub subject: Option<Seq<char>>,
}

/// A request that has passed the bearer check, and is still to be counted.
#[derive(Debug)]
pub struct Screened {
    path: String,
    query: Option<String>,
    subject: Option<String>,
}

/// A request that has passed the bearer check and the rate limiter.
#[derive(Debug)]
pub struct Admitted {
    path: String,
    query: Option<String>,
    subject: Option<String>,
}

impl View for Screened {
    type V = ErrandView;

    closed spec fn view(&self) -> ErrandView {
        ErrandView {
            path: self.path@,
            query: optional_string(self.query),
            subject: optional_string(self.subject),
        }
    }
}

impl View for Admitted {
    type V = ErrandView;

    closed spec fn view(&self) -> ErrandView {
        ErrandView {
            path: self.path@,
            query: optional_string(self.query),
            subject: optional_string(self.subject),
        }
    }
}

impl Screened {
    /// The verified subject that the request is made on behalf of.
    pub fn subject(&self) -> (subject: Option<&str>)
        ensures
            optional_text(subject) == self@.subject,
    {
        borrowed(&self.subject)
    }
}

impl Admitted {
    /// The verified subject that the request is made on behalf of.
    pub fn subject(&self) -> (subject: Option<&str>)
        ensures
            optional_text(subject) == self@.subject,
    {
        borrowed(&self.subject)
    }
}

/// What has just happened to a request.
#[derive(Debug)]
pub enum RequestProgress {
    /// It came in.
    Arrived(Arrival),
    /// The store was asked to count it, and answered this.
    Counted(Screened, CounterReply),
    /// Its body was to be read. The flag says whether all of it is there.
    BodyRead(Admitted, bool),
    /// The call to the backend was made, and this came of it.
    CallMade(BackendCall, CallOutcome),
}

/// What to do next with a request.
#[derive(Debug)]
pub enum RequestAction {
    /// Answer it with the reply to this rejection. Nothing follows.
    Reject(Rejection),
    /// Ask the store to count it.
    Count(Screened, CounterRequest),
    /// Read its body.
    ReadBody(Admitted),
    /// Make this call to the backend.
    Call(BackendCall),
    /// Answer it with this reply. Nothing follows.
    Respond(Reply),
    /// Answer it with what the backend answered. Nothing follows.
    Relay,
}

/// What has just happened to a request, by its characters.
pub enum ProgressView {
    Arrived(ArrivalView),
    Counted(ErrandView, CounterReply),
    BodyRead(ErrandView, bool),
    CallMade(CallView, CallOutcome),
}

/// What to do next with a request, by its characters.
pub enum ActionView {
    Reject(RejectionView),
    Count { errand: ErrandView, key: Seq<char>, expire_secs: nat },
    ReadBody(ErrandView),
    Call(CallView),
    Respond(ReplyView),
    Relay,
}

impl View for RequestProgress {
    type V = ProgressView;

    open spec fn view(&self) -> ProgressView {
        match self {
            RequestProgress::Arrived(arrival) => ProgressView::Arrived(arrival@),
            RequestProgress::Counted(screened, reply) => ProgressView::Counted(
                screened@,
                *reply,
            ),
            RequestProgress::BodyRead(admitted, whole) => ProgressView::BodyRead(
                admitted@,
                *whole,
            ),
            RequestProgress::CallMade(call, outcome) => ProgressView::CallMade(call@, *outcome),
        }
    }
}

impl View for RequestAction {
    type V = ActionView;

    open spec fn view(&self) -> ActionView {
        match self {
            RequestAction::Reject(rejection) => ActionView::Reject(rejection@),
            RequestAction::Count(screened, request) => ActionView::Count {
                errand: screened@,
                key: request.key@,
                expire_secs: request.expire_secs as nat,
            },
            RequestAction::ReadBody(admitted) => ActionView::ReadBody(admitted@),
            RequestAction::Call(call) => ActionView::Call(call@),
            RequestAction::Respond(reply) => ActionView::Respond(reply@),
            RequestAction::Relay => ActionView::Relay,
        }
    }
}

/// What the clocks say at a step: the Unix time, the time on the clock of the breaker of
/// the backend, and the time since the call to it was begun.
#[derive(Debug, Clone, Copy)]
pub struct Readings {
    pub unix_now: u64,
    pub breaker_now: Duration,
    pub elapsed: Duration,
}

/// What the clocks say at a step, in seconds and in nanoseconds.
pub struct ReadingsView {
    pub unix_now: u64,
    pub breaker_now: nat,
    pub elapsed: nat,
}

impl View for Readings {
    type V = ReadingsView;

    open spec fn view(&self) -> ReadingsView {
        ReadingsView {
            unix_now: self.unix_now,
            breaker_now: self.breaker_now@,
            elapsed: self.elapsed@,
        }
    }
}

/// Reading the clocks that a step goes by can give these readings.
pub open spec fn clocks_show(
    state: ProxyState,
    progress: RequestProgress,
    readings: ReadingsView,
) -> bool {
    match progress {
        RequestProgress::Arrived(arrival) => is_unix_now(readings.unix_now)
            && state.clock_shows(route_path(arrival.path@).0, readings.breaker_now),
        RequestProgress::Counted(screened, _) => state.clock_shows(
            route_path(screened@.path).0,
            readings.breaker_now,
        ),
        RequestProgress::BodyRead(admitted, _) => state.clock_shows(
            route_path(admitted@.path).0,
            readings.breaker_now,
        ),
        RequestProgress::CallMade(call, _) => state.clock_shows(
            call@.prefix,
            readings.breaker_now,
        ) && call.stopwatch_shows(readings.elapsed),
    }
}

impl ProxyView {
    /// What follows for a request that has passed the bearer check and the limiter.
    pub open spec fn let_on(self, errand: ErrandView, now: nat) -> (ProxyView, ActionView) {
        match self.turned_away(errand.path, now) {
            (after, Some(reply)) => (after, ActionView::Respond(reply)),
            (after, None) => (after, ActionView::ReadBody(errand)),
        }
    }

    /// What follows from progress: the gateway afterwards, and what to do next.
    pub open spec fn proceeded(self, progress: ProgressView, readings: ReadingsView) -> (
        ProxyView,
        ActionView,
    ) {
        match progress {
            ProgressView::Arrived(arrival) => match self.screened(
                arrival.authorization,
                arrival.client_ip,
                readings.unix_now,
            ) {
                ScreeningView::Reject(rejection) => (self, ActionView::Reject(rejection)),
                ScreeningView::Count { subject, key, expire_secs } => (
                    self,
                    ActionView::Count { errand: errand_of(arrival, subject), key, expire_secs },
                ),
                ScreeningView::Pass(subject) => self.let_on(
                    errand_of(arrival, subject),
                    readings.breaker_now,
                ),
            },
            ProgressView::Counted(errand, reply) => match self.counted(errand.path, reply) {
                (after, Some(rejected)) => (after, ActionView::Respond(rejected)),
                (after, None) => after.let_on(errand, readings.breaker_now),
            },
            ProgressView::BodyRead(errand, whole) => if whole {
                match self.dispatched(errand.path, errand.query, readings.breaker_now) {
                    (after, DispatchView::Respond(reply)) => (after, ActionView::Respond(reply)),
                    (after, DispatchView::Forward(call)) => (after, ActionView::Call(call)),
                }
            } else {
                (self, ActionView::Respond(unreadable_body_reply()))
            },
            ProgressView::CallMade(call, outcome) => match self.concluded(
                call,
                outcome,
                readings.breaker_now,
                readings.elapsed,
            ) {
                (after, Some(reply)) => (after, ActionView::Respond(reply)),
                (after, None) => (after, ActionView::Relay),
            },
        }
    }
}

/// What a request asks for, on behalf of a subject.
pub open spec fn errand_of(arrival: ArrivalView, subject: Option<Seq<char>>) -> ErrandView {
    ErrandView { path: arrival.path, query: arrival.query, subject }
}

fn let_on_at(state: &mut ProxyState, admitted: Admitted, now: Duration) -> (action: RequestAction)
    ensures
        (final(state)@, action@) == old(state)@.let_on(admitted@, now@),
        final(state).clocks() == old(state).clocks(),
        !(action is Call),
{
    match state.turn_away_at(admitted.path.as_str(), now) {
        Some(reply) => RequestAction::Respond(reply),
        None => RequestAction::ReadBody(admitted),
    }
}

/// Decides the next step of a request, by the given readings of the clocks: bearer check,
/// rate limiter, circuit breaker, and then the call to the backend.
pub fn proxy_fallback_at(state: &mut ProxyState, progress: RequestProgress, readings: Readings)
    -> (action: RequestAction)
    ensures
        (final(state)@, action@) == old(state)@.proceeded(progress@, readings@),
        final(state).clocks() == old(state).clocks(),
        action matches RequestAction::Call(call) ==> call.is_timed_from_now(),
{
    match progress {
        RequestProgress::Arrived(arrival) => {
            let screening = state.screen_at(
                borrowed(&arrival.authorization),
                borrowed(&arrival.client_ip),
                readings.unix_now,
            );
            match screening {
                Screening::Reject(rejection) => RequestAction::Reject(rejection),
                Screening::Count(subject, request) => {
                    let screened = Screened { path: arrival.path, query: arrival.query, subject };
                    RequestAction::Count(screened, request)
                },
                Screening::Pass(subject) => {
                    let admitted = Admitted { path: arrival.path, query: arrival.query, subject };
                    let_on_at(state, admitted, readings.breaker_now)
                },
            }
        },
        RequestProgress::Counted(screened, reply) => match state.count(
            screened.path.as_str(),
            reply,
        ) {
            Some(rejected) => RequestAction::Respond(rejected),
            None => {
                let Screened { path, query, subject } = screened;
                let_on_at(state, Admitted { path, query, subject }, readings.breaker_now)
            },
        },
        RequestProgress::BodyRead(admitted, whole) => {
            if !whole {
                return RequestAction::Respond(state.unreadable_body());
            }
            match state.dispatch_at(
                admitted.path.as_str(),
                borrowed(&admitted.query),
                readings.breaker_now,
            ) {
                Dispatch::Respond(reply) => RequestAction::Respond(reply),
                Dispatch::Forward(call) => RequestAction::Call(call),
            }
        },
        RequestProgress::CallMade(call, outcome) => match state.conclude_at(
            call,
            outcome,
            readings.breaker_now,
            readings.elapsed,
        ) {
            Some(reply) => RequestAction::Respond(reply),
            None => RequestAction::Relay,
        },
    }
}

/// Reads the clocks that a step goes by. A reading that it does not go by is zero.
fn read_clocks(state: &ProxyState, progress: &RequestProgress) -> (readings: Readings)
    ensures
        clocks_show(*state, *progress, readings@),
{
    let path = match progress {
        RequestProgress::Arrived(arrival) => arrival.path.as_str(),
        RequestProgress::Counted(screened, _) => screened.path.as_str(),
        RequestProgress::BodyRead(admitted, _) => admitted.path.as_str(),
        RequestProgress::CallMade(call, _) => {
            let breaker_now = state.breaker_clock(call.prefix());
            return Readings { unix_now: 0, breaker_now, elapsed: call.elapsed() };
        },
    };
    let unix: u64 = match progress {
        RequestProgress::Arrived(_) => unix_now(),
        _ => 0,
    };
    let (prefix, _) = split_path(path);
    let breaker_now = state.breaker_clock(prefix.as_str());
    Readings { unix_now: unix, breaker_now, elapsed: Duration::from_secs(0) }
}

/// Decides the next step of a request now: bearer check, rate limiter, circuit breaker, and
/// then the call to the backend.
pub fn proxy_fallback(state: &mut ProxyState, progress: RequestProgress) -> (action:
    RequestAction)
    ensures
        exists|readings: ReadingsView|
            clocks_show(*old(state), progress, readings) && (final(state)@, action@)
                == #[trigger] old(state)@.proceeded(progress@, readings),
        final(state).clocks() == old(state).clocks(),
        action matches RequestAction::Call(call) ==> call.is_timed_from_now(),
{
    let readings = read_clocks(state, &progress);
    let ghost view = progress@;
    let action = proxy_fallback_at(state, progress, readings);
    assert((state@, action@) == old(state)@.proceeded(view, readings@));
    action
}

/// One step of a request: the gateway as it was then, what the clocks said, what had just
/// happened, and what was to be done next.
pub struct RequestStep {
    pub gateway: ProxyView,
    pub readings: ReadingsView,
    pub progress: ProgressView,
    pub action: ActionView,
}

/// What was done and came of it is what was asked for.
pub open spec fn answers(progress: ProgressView, action: ActionView) -> bool {
    match (action, progress) {
        (ActionView::Count { errand, .. }, ProgressView::Counted(counted, _)) => counted
            == errand,
        (ActionView::ReadBody(errand), ProgressView::BodyRead(read, _)) => read == errand,
        (ActionView::Call(call), ProgressView::CallMade(made, _)) => made == call,
        _ => false,
    }
}

/// Two gateways, or one at two moments, with the same backends, bearer check and limits.
pub open spec fn same_setup(a: ProxyView, b: ProxyView) -> bool {
    &&& a.backends == b.backends
    &&& a.auth == b.auth
    &&& a.backend_timeout == b.backend_timeout
    &&& match (a.limiter, b.limiter) {
        (Some(a), Some(b)) => a.limit == b.limit && a.window_secs == b.window_secs
            && a.key_prefix == b.key_prefix,
        (None, None) => true,
        _ => false,
    }
}

/// The course of one request through a gateway, up to some step of it. In between, other
/// requests may have changed breakers, metrics and counts.
pub open spec fn is_course(steps: Seq<RequestStep>) -> bool {
    &&& steps.len() > 0
    &&& steps[0].progress is Arrived
    &&& forall|i: int|
        0 <= i < steps.len() ==> {
            &&& (#[trigger] steps[i]).action == steps[i].gateway.proceeded(
                steps[i].progress,
                steps[i].readings,
            ).1
            &&& same_setup(steps[0].gateway, steps[i].gateway)
            &&& i > 0 ==> answers(steps[i].progress, steps[i - 1].action)
        }
}

/// What a gateway is set up with stays: no step of a request and no scrape changes it.
pub proof fn law_setup_stays(gateway: ProxyView, progress: ProgressView, readings: ReadingsView)
    ensures
        same_setup(gateway, gateway.proceeded(progress, readings).0),
        same_setup(gateway, gateway.published()),
{
}

/// Nothing reaches a backend unchecked. Wherever the course of a request comes to the call
/// to the backend, it has passed, in this order: the bearer check, if there is one; the
/// limiter, if there is one, by a count within the limit or a store that did not answer;
/// and the breaker of the backend, if there is one. The call asks that backend for the rest
/// of the path, with the query of the request.
pub proof fn law_nothing_is_forwarded_unchecked(steps: Seq<RequestStep>)
    requires
        is_course(steps),
        steps.last().action is Call,
    ensures
        ({
            let arrival = steps[0].progress->Arrived_0;
            let gateway = steps[0].gateway;
            let last = steps.last();
            let call = last.action->Call_0;
            let (prefix, suffix) = route_path(arrival.path);
            &&& gateway.auth is Some ==> bearer_verdict(
                gateway.auth->0,
                arrival.authorization,
                steps[0].readings.unix_now,
            ) is Ok
            &&& gateway.limiter is Some ==> {
                &&& steps.len() == 3
                &&& steps[0].action is Count
                &&& steps[1].progress is Counted
                &&& !(gateway.limiter->0.decision(steps[1].progress->Counted_1) is Limit)
            }
            &&& gateway.limiter is None ==> steps.len() == 2
            &&& last.gateway.asked(prefix, last.readings.breaker_now).1 == Admit::Call
            &&& last.progress is BodyRead
            &&& gateway.backends.contains_key(prefix)
            &&& call.prefix == prefix
            &&& call.target == gateway.backends[prefix] + suffix + query_part(arrival.query)
        }),
{
    let n = steps.len() - 1;
    assert(steps[n] == steps.last());
    assert(steps[n].progress is BodyRead);
    assert(answers(steps[n].progress, steps[n - 1].action));
    assert(steps[n - 1].action is ReadBody);
    if n - 1 > 0 {
        assert(answers(steps[n - 1].progress, steps[n - 2].action));
        assert(steps[n - 1].progress is Counted);
        assert(steps[n - 2].action is Count);
        if n - 2 > 0 {
            assert(answers(steps[n - 2].progress, steps[n - 3].action));
        }
    }
}

/// The bearer check fails closed over the whole course of a request: one that it rejects
/// is answered at once. It is neither counted nor forwarded, and changes nothing.
pub proof fn law_unverified_requests_end_at_once(steps: Seq<RequestStep>)
    requires
        is_course(steps),
        steps[0].gateway.auth is Some,
        bearer_verdict(
            steps[0].gateway.auth->0,
            steps[0].progress->Arrived_0.authorization,
            steps[0].readings.unix_now,
        ) is Err,
    ensures
        steps.len() == 1,
        steps[0].action is Reject,
        steps[0].gateway.proceeded(steps[0].progress, steps[0].readings).0 == steps[0].gateway,
{
    if steps.len() > 1 {
        assert(answers(steps[1].progress, steps[0].action));
    }
}

/// A request over the limit is answered with 429 and goes no further: it is not forwarded,
/// and no breaker is asked or told anything on its behalf.
pub proof fn law_limited_requests_end_at_once(steps: Seq<RequestStep>)
    requires
        is_course(steps),
        steps.len() > 1,
        steps[1].progress is Counted,
        steps[1].gateway.limiter is Some,
        steps[1].gateway.limiter->0.decision(steps[1].progress->Counted_1) is Limit,
    ensures
        steps.len() == 2,
        steps[1].action == ActionView::Respond(
            limited_reply(
                steps[1].gateway.limiter->0.decision(steps[1].progress->Counted_1)->Limit_0,
            ),
        ),
        steps[1].gateway.proceeded(steps[1].progress, steps[1].readings).0.breakers
            == steps[1].gateway.breakers,
{
    if steps.len() > 2 {
        assert(answers(steps[2].progress, steps[1].action));
    }
}

/// Whether nothing follows an action.
pub open spec fn is_final(action: ActionView) -> bool {
    action is Reject || action is Respond || action is Relay
}

/// Every course comes to its end: after the call to the backend there is nothing left to do
/// but to answer, and no course has more than four steps.
pub proof fn law_every_course_ends(steps: Seq<RequestStep>)
    requires
        is_course(steps),
    ensures
        steps.len() <= 4,
        steps.last().progress is CallMade ==> is_final(steps.last().action),
        steps.len() == 4 ==> is_final(steps.last().action),
{
    assert(steps.last() == steps[steps.len() - 1]);
    if steps.len() > 1 {
        assert(answers(steps[1].progress, steps[0].action));
    }
    if steps.len() > 2 {
        assert(answers(steps[2].progress, steps[1].action));
    }
    if steps.len() > 3 {
        assert(answers(steps[3].progress, steps[2].action));
    }
    if steps.len() > 4 {
        assert(answers(steps[4].progress, steps[3].action));
    }
}

/// A good request comes through: verified where there is a bearer check, within the limit
/// or uncounted where there is a limiter, and to a known prefix whose breaker lets it pass,
/// it is forwarded once its body is there.
pub proof fn law_good_requests_are_forwarded(
    gateway: ProxyView,
    arrival: ArrivalView,
    reply: CounterReply,
    readings: ReadingsView,
)
    requires
        gateway.auth is Some ==> bearer_verdict(
            gateway.auth->0,
            arrival.authorization,
            readings.unix_now,
        ) is Ok,
        gateway.limiter is Some ==> !(gateway.limiter->0.decision(reply) is Limit),
        route_path(arrival.path).0.len() > 0,
        gateway.backends.contains_key(route_path(arrival.path).0),
        gateway.asked(route_path(arrival.path).0, readings.breaker_now).1 == Admit::Call,
    ensures
        ({
            let (prefix, suffix) = route_path(arrival.path);
            let (first, to_count) = gateway.proceeded(ProgressView::Arrived(arrival), readings);
            let (second, to_read) = if gateway.limiter is Some {
                first.proceeded(ProgressView::Counted(to_count->errand, reply), readings)
            } else {
                (first, to_count)
            };
            let to_call = second.proceeded(
                ProgressView::BodyRead(to_read->ReadBody_0, true),
                readings,
            ).1;
            &&& gateway.limiter is Some ==> to_count is Count
            &&& to_read is ReadBody
            &&& to_call == ActionView::Call(
                CallView {
                    prefix,
                    target: gateway.backends[prefix] + suffix + query_part(arrival.query),
                    timed: gateway.timer_for(prefix),
                },
            )
        }),
{
}

/// Something that happens to a gateway: a request takes a step, or the metrics are read.
pub enum GatewayEvent {
    Step(ProgressView, ReadingsView),
    Scrape,
}

impl ProxyView {
    /// The gateway after one event.
    pub open spec fn after_event(self, event: GatewayEvent) -> ProxyView {
        match event {
            GatewayEvent::Step(progress, readings) => self.proceeded(progress, readings).0,
            GatewayEvent::Scrape => self.published(),
        }
    }

    /// The gateway after all of these events, in turn.
    pub open spec fn after_events(self, events: Seq<GatewayEvent>) -> ProxyView
        decreases events.len(),
    {
        if events.len() == 0 {
            self
        } else {
            self.after_events(events.drop_last()).after_event(events.last())
        }
    }
}

/// What can happen to a gateway to these backends: calls come from the gateway itself, so
/// that they are timed under prefixes of the route table, and status codes have three
/// digits.
pub open spec fn can_happen(backends: Map<Seq<char>, Seq<char>>, event: GatewayEvent) -> bool {
    match event {
        GatewayEvent::Step(ProgressView::CallMade(call, outcome), _) => {
            &&& call.timed is Some ==> backends.contains_key(call.timed->0)
            &&& match outcome {
                CallOutcome::Answered(status) => 100 <= status <= 999,
                CallOutcome::Failed => true,
            }
        },
        _ => true,
    }
}

/// The metrics stay bounded for as long as a gateway runs: from the moment it is built,
/// whatever happens, they are labelled with nothing but prefixes of the route table and
/// classes of status codes. And the calls that it asks for are timed under such prefixes.
pub proof fn law_metrics_stay_bounded(
    gateway: ProxyView,
    routes: Seq<RouteView>,
    breaker: BreakerView,
    events: Seq<GatewayEvent>,
    progress: ProgressView,
    readings: ReadingsView,
)
    requires
        gateway.is_fresh(routes, breaker),
        forall|i: int|
            0 <= i < events.len() ==> can_happen(gateway.backends, #[trigger] events[i]),
    ensures
        gateway.after_events(events).well_labelled(),
        gateway.after_events(events).backends == gateway.backends,
        gateway.after_events(events).proceeded(progress, readings).1 matches ActionView::Call(
            call,
        ) ==> call.timed is Some ==> gateway.backends.contains_key(call.timed->0),
    decreases events.len(),
{
    if events.len() == 0 {
        law_fresh_gateway_is_well_labelled(gateway, routes, breaker);
    } else {
        let before = gateway.after_events(events.drop_last());
        law_metrics_stay_bounded(
            gateway,
            routes,
            breaker,
            events.drop_last(),
            progress,
            readings,
        );
        assert(can_happen(gateway.backends, events[events.len() - 1]));
        lemma_event_keeps_labels(before, events.last());
    }
}

proof fn lemma_event_keeps_labels(gateway: ProxyView, event: GatewayEvent)
    requires
        gateway.well_labelled(),
        can_happen(gateway.backends, event),
    ensures
        gateway.after_event(event).well_labelled(),
        gateway.after_event(event).backends == gateway.backends,
{
    let no_call = CallView { prefix: Seq::empty(), target: Seq::empty(), timed: None };
    match event {
        GatewayEvent::Step(progress, readings) => {
            law_setup_stays(gateway, progress, readings);
            let now = readings.breaker_now;
            let nanos = readings.elapsed;
            match progress {
                ProgressView::Arrived(arrival) => {
                    law_requests_cannot_grow_the_metrics(
                        gateway,
                        arrival.path,
                        None,
                        CounterReply::Unavailable,
                        no_call,
                        CallOutcome::Failed,
                        now,
                        nanos,
                    );
                },
                ProgressView::Counted(errand, reply) => {
                    law_requests_cannot_grow_the_metrics(
                        gateway,
                        errand.path,
                        None,
                        reply,
                        no_call,
                        CallOutcome::Failed,
                        now,
                        nanos,
                    );
                    law_requests_cannot_grow_the_metrics(
                        gateway.counted(errand.path, reply).0,
                        errand.path,
                        None,
                        reply,
                        no_call,
                        CallOutcome::Failed,
                        now,
                        nanos,
                    );
                },
                ProgressView::BodyRead(errand, _) => {
                    law_requests_cannot_grow_the_metrics(
                        gateway,
                        errand.path,
                        errand.query,
                        CounterReply::Unavailable,
                        no_call,
                        CallOutcome::Failed,
                        now,
                        nanos,
                    );
                },
                ProgressView::CallMade(call, outcome) => {
                    law_requests_cannot_grow_the_metrics(
                        gateway,
                        Seq::empty(),
                        None,
                        CounterReply::Unavailable,
                        call,
                        outcome,
                        now,
                        nanos,
                    );
                },
            }
        },
        GatewayEvent::Scrape => {
            law_requests_cannot_grow_the_metrics(
                gateway,
                Seq::empty(),
                None,
                CounterReply::Unavailable,
                no_call,
                CallOutcome::Failed,
                0,
                0,
            );
        },
    }
}

/// Between its steps a request stays what it is: path and query are those that it came in
/// with, and the subject is the verified one.
#[verifier::spinoff_prover]
#[verifier::rlimit(60)]
pub proof fn law_requests_stay_what_they_are(
    gateway: ProxyView,
    arrival: ArrivalView,
    errand: ErrandView,
    reply: CounterReply,
    readings: ReadingsView,
)
    ensures
        ({
            let first = gateway.proceeded(ProgressView::Arrived(arrival), readings).1;
            let next = gateway.proceeded(ProgressView::Counted(errand, reply), readings).1;
            let subject = if gateway.auth is Some {
                Some(
                    bearer_verdict(
                        gateway.auth->0,
                        arrival.authorization,
                        readings.unix_now,
                    )->Ok_0,
                )
            } else {
                None
            };
            &&& first is Count ==> first->errand.path == arrival.path && first->errand.query
                == arrival.query && first->errand.subject == subject
            &&& first is ReadBody ==> first->ReadBody_0.path == arrival.path
                && first->ReadBody_0.query == arrival.query && first->ReadBody_0.subject
                == subject
            &&& next is ReadBody ==> next->ReadBody_0 == errand
            &&& !(first is Call) && !(first is Relay)
            &&& next is ReadBody || next is Respond
            &&& first is Count <==> gateway.limiter is Some && !(first is Reject)
        }),
{
}

/// A body that could not be read is answered with 400, whatever was asked for, and changes
/// nothing: no breaker is asked for it.
pub proof fn law_unreadable_bodies_change_nothing(
    gateway: ProxyView,
    errand: ErrandView,
    readings: ReadingsView,
)
    ensures
        ({
            let (after, action) = gateway.proceeded(
                ProgressView::BodyRead(errand, false),
                readings,
            );
            &&& after == gateway
            &&& action is Respond
            &&& action->Respond_0.status == 400
            &&& action->Respond_0.headers.len() == 0
            &&& action->Respond_0.body == "failed to read request body"@
        }),
{
}

/// What a backend answers is relayed, whatever its status, and where it does not answer,
/// the request is answered with 502 and the prefix of the backend. Either way the breaker
/// of the backend is told, at the time on its clock, and the call is timed by its own
/// stopwatch.
#[verifier::spinoff_prover]
#[verifier::rlimit(60)]
pub proof fn law_answers_are_relayed(
    gateway: ProxyView,
    call: CallView,
    status: u16,
    readings: ReadingsView,
)
    ensures
        ({
            let answered = ProgressView::CallMade(call, CallOutcome::Answered(status));
            let failed = ProgressView::CallMade(call, CallOutcome::Failed);
            &&& gateway.proceeded(answered, readings) == (
                gateway.concluded(
                    call,
                    CallOutcome::Answered(status),
                    readings.breaker_now,
                    readings.elapsed,
                ).0,
                ActionView::Relay,
            )
            &&& gateway.proceeded(failed, readings).0 == gateway.concluded(
                call,
                CallOutcome::Failed,
                readings.breaker_now,
                readings.elapsed,
            ).0
            &&& gateway.proceeded(failed, readings).1 is Respond
            &&& gateway.proceeded(failed, readings).1->Respond_0.status == 502
            &&& gateway.proceeded(failed, readings).1->Respond_0.body == "backend "@ + debug_text(
                call.prefix,
            ) + " unreachable"@
            &&& gateway.breakers is Some && gateway.breakers->0.contains_key(call.prefix) ==> {
                &&& gateway.proceeded(answered, readings).0.breakers->0[call.prefix]
                    == gateway.breakers->0[call.prefix].record(true, readings.breaker_now)
                &&& gateway.proceeded(failed, readings).0.breakers->0[call.prefix]
                    == gateway.breakers->0[call.prefix].record(false, readings.breaker_now)
            }
        }),
{
}

/// The call that a request comes to carries its whole query behind one question mark, and
/// none where the request has none.
#[verifier::spinoff_prover]
#[verifier::rlimit(60)]
pub proof fn law_the_whole_query_is_forwarded(steps: Seq<RequestStep>)
    requires
        is_course(steps),
        steps.last().action is Call,
    ensures
        ({
            let arrival = steps[0].progress->Arrived_0;
            let (prefix, suffix) = route_path(arrival.path);
            let front = steps[0].gateway.backends[prefix] + suffix;
            let target = steps.last().action->Call_0.target;
            &&& arrival.query is Some ==> target == front + seq!['?'] + arrival.query->0
            &&& arrival.query is None ==> target == front
        }),
{
    law_nothing_is_forwarded_unchecked(steps);
    let arrival = steps[0].progress->Arrived_0;
    let (prefix, suffix) = route_path(arrival.path);
    lemma_query_part(steps[0].gateway.backends[prefix] + suffix, arrival.query);
}

/// Each step is one decision: what comes in is screened at the Unix time; what was counted
/// is decided by the count; then, and where nothing is counted, a request that would not be
/// forwarded is turned away; and one whose body is there is dispatched.
#[verifier::spinoff_prover]
#[verifier::rlimit(60)]
pub proof fn law_each_step_is_one_decision(
    gateway: ProxyView,
    arrival: ArrivalView,
    errand: ErrandView,
    reply: CounterReply,
    readings: ReadingsView,
)
    ensures
        ({
            let now = readings.breaker_now;
            let screening = gateway.screened(
                arrival.authorization,
                arrival.client_ip,
                readings.unix_now,
            );
            let (after, action) = gateway.proceeded(ProgressView::Arrived(arrival), readings);
            match screening {
                ScreeningView::Reject(rejection) => after == gateway && action
                    == ActionView::Reject(rejection),
                ScreeningView::Count { subject, key, expire_secs } => after == gateway
                    && action is Count && action->key == key && action->expire_secs
                    == expire_secs,
                ScreeningView::Pass(_) => after == gateway.turned_away(arrival.path, now).0
                    && match gateway.turned_away(arrival.path, now).1 {
                    Some(reply) => action == ActionView::Respond(reply),
                    None => action is ReadBody,
                },
            }
        }),
        ({
            let now = readings.breaker_now;
            let (counted, rejected) = gateway.counted(errand.path, reply);
            let (after, action) = gateway.proceeded(
                ProgressView::Counted(errand, reply),
                readings,
            );
            match rejected {
                Some(rejected) => after == counted && action == ActionView::Respond(rejected),
                None => after == counted.turned_away(errand.path, now).0
                    && match counted.turned_away(errand.path, now).1 {
                    Some(reply) => action == ActionView::Respond(reply),
                    None => action == ActionView::ReadBody(errand),
                },
            }
        }),
        ({
            let now = readings.breaker_now;
            let (dispatched, next) = gateway.dispatched(errand.path, errand.query, now);
            let (after, action) = gateway.proceeded(
                ProgressView::BodyRead(errand, true),
                readings,
            );
            &&& after == dispatched
            &&& match next {
                DispatchView::Respond(reply) => action == ActionView::Respond(reply),
                DispatchView::Forward(call) => action == ActionView::Call(call),
            }
        }),
{
}

/// A step goes by the clocks: the Unix time where a request comes in, the clock of the
/// breaker of its backend at every step, and the stopwatch of the call where it was made.
pub proof fn law_steps_go_by_the_clocks(
    state: ProxyState,
    arrival: Arrival,
    screened: Screened,
    admitted: Admitted,
    call: BackendCall,
    reply: CounterReply,
    whole: bool,
    outcome: CallOutcome,
    readings: ReadingsView,
)
    ensures
        clocks_show(state, RequestProgress::Arrived(arrival), readings) <==> is_unix_now(
            readings.unix_now,
        ) && state.clock_shows(route_path(arrival.path@).0, readings.breaker_now),
        clocks_show(state, RequestProgress::Counted(screened, reply), readings)
            <==> state.clock_shows(route_path(screened@.path).0, readings.breaker_now),
        clocks_show(state, RequestProgress::BodyRead(admitted, whole), readings)
            <==> state.clock_shows(route_path(admitted@.path).0, readings.breaker_now),
        clocks_show(state, RequestProgress::CallMade(call, outcome), readings)
            <==> state.clock_shows(call@.prefix, readings.breaker_now) && call.stopwatch_shows(
            readings.elapsed,
        ),
{
}

/// What happens to a request, and what is done with it, is seen as it is.
pub proof fn law_steps_are_seen_whole(
    arrival: Arrival,
    screened: Screened,
    admitted: Admitted,
    call: BackendCall,
    counter: CounterReply,
    request: CounterRequest,
    whole: bool,
    outcome: CallOutcome,
    rejection: Rejection,
    reply: Reply,
    readings: Readings,
)
    ensures
        arrival@.path == arrival.path@,
        arrival@.query == optional_string(arrival.query),
        arrival@.authorization == optional_string(arrival.authorization),
        arrival@.client_ip == optional_string(arrival.client_ip),
        readings@.unix_now == readings.unix_now,
        readings@.breaker_now == readings.breaker_now@,
        readings@.elapsed == readings.elapsed@,
        RequestProgress::Arrived(arrival)@ == ProgressView::Arrived(arrival@),
        RequestProgress::Counted(screened, counter)@ == ProgressView::Counted(screened@, counter),
        RequestProgress::BodyRead(admitted, whole)@ == ProgressView::BodyRead(admitted@, whole),
        RequestProgress::CallMade(call, outcome)@ == ProgressView::CallMade(call@, outcome),
        RequestAction::Reject(rejection)@ == ActionView::Reject(rejection@),
        RequestAction::Count(screened, request)@ == (ActionView::Count {
            errand: screened@,
            key: request.key@,
            expire_secs: request.expire_secs as nat,
        }),
        RequestAction::ReadBody(admitted)@ == ActionView::ReadBody(admitted@),
        RequestAction::Call(call)@ == ActionView::Call(call@),
        RequestAction::Respond(reply)@ == ActionView::Respond(reply@),
        RequestAction::Relay@ == ActionView::Relay,
{
}

} // verus!
