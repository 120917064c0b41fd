//! Prometheus metrics: a registry and the text exposition of it.
//!
//! Every label is bounded by the configuration, not by what requests hold: the
//! route prefix, the class of the HTTP status (`2xx` to `5xx`), and the state
//! of a breaker.

use vstd::prelude::*;
use vstd::string::*;

use crate::circuit::State;
use crate::table::{law_finite_sets_are_listed, listed, lists, Table};
use crate::text::{decimal_of, split_at_first, trim_end, write_decimal, write_padded};
use crate::text::{
    decimal, lemma_split_once, optional_text, padded_decimal, split_once, trim_end_of,
};
use crate::text::{
    is_digits, law_decimal_reads_back, law_padded_decimal_reads_back, law_split_is_at_the_first,
    law_trimming_takes_the_run, lemma_number_of_joined, lemma_precedes_irreflexive,
    lemma_precedes_transitive, number_of, power_of_ten, precedes, run_of,
};
use crate::time::{Duration, Stopwatch, NANOS_PER_SEC};

verus! {

/// Upper bounds of the latency buckets, in nanoseconds, from half a
/// millisecond to two and a half seconds.
pub const LATENCY_BUCKETS: [u64; 12] = [
    500_000,
    1_000_000,
    2_000_000,
    5_000_000,
    10_000_000,
    20_000_000,
    50_000_000,
    100_000_000,
    250_000_000,
    500_000_000,
    1_000_000_000,
    2_500_000_000,
];

/// A counter after one more event. Counters wrap around at their end.
pub open spec fn counted(n: u64) -> u64 {
    if n == u64::MAX {
        0
    } else {
        (n + 1) as u64
    }
}

/// Counters of one prefix: proxied requests, and the rejections that the
/// gateway itself produced. Errors that a backend answers with are responses.
#[derive(Debug, Clone, Copy)]
pub struct PrefixCounters {
    /// Proxied requests.
    pub requests_total: u64,
    /// Requests rejected by the rate limiter.
    pub rate_limited_total: u64,
    /// Requests short-circuited by an open breaker.
    pub circuit_open_total: u64,
}

impl PrefixCounters {
    /// No event of any kind.
    pub open spec fn zero() -> PrefixCounters {
        PrefixCounters { requests_total: 0, rate_limited_total: 0, circuit_open_total: 0 }
    }
}

/// The latencies of one prefix.
#[derive(Debug)]
pub struct Histogram {
    counts: Vec<u64>,
    sum_nanos: u64,
    count: u64,
}

/// A histogram by its numbers: for each bucket how many latencies were at most
/// its bound, the sum of all latencies in nanoseconds, and how many there were.
#[verifier::ext_equal]
pub struct HistogramView {
    pub counts: Seq<u64>,
    pub sum_nanos: u64,
    pub count: u64,
}

/// A latency as the histogram adds it up: longer ones than the counter can
/// hold count as the longest that it can.
pub open spec fn clamped_nanos(nanos: nat) -> u64 {
    if nanos > u64::MAX {
        u64::MAX
    } else {
        nanos as u64
    }
}

impl HistogramView {
    /// A histogram that has seen nothing.
    pub open spec fn empty() -> HistogramView {
        HistogramView {
            counts: Seq::new(LATENCY_BUCKETS@.len(), |i: int| 0u64),
            sum_nanos: 0,
            count: 0,
        }
    }

    /// The histogram after one more latency: every bucket whose bound it does
    /// not exceed counts it.
    pub open spec fn observed(self, nanos: nat) -> HistogramView {
        HistogramView {
            counts: Seq::new(
                LATENCY_BUCKETS@.len(),
                |i: int|
                    if nanos <= LATENCY_BUCKETS@[i] {
                        counted(self.counts[i])
                    } else {
                        self.counts[i]
                    },
            ),
            sum_nanos: ((self.sum_nanos + clamped_nanos(nanos)) % 0x1_0000_0000_0000_0000) as u64,
            count: counted(self.count),
        }
    }

    /// The histogram after one latency after the other.
    pub open spec fn observed_all(self, latencies: Seq<nat>) -> HistogramView
        decreases latencies.len(),
    {
        if latencies.len() == 0 {
            self
        } else {
            self.observed_all(latencies.drop_last()).observed(latencies.last())
        }
    }
}

impl View for Histogram {
    type V = HistogramView;

    closed spec fn view(&self) -> HistogramView {
        HistogramView { counts: self.counts@, sum_nanos: self.sum_nanos, count: self.count }
    }
}

impl Histogram {
    #[verifier::type_invariant]
    closed spec fn one_count_per_bucket(&self) -> bool {
        self.counts@.len() == LATENCY_BUCKETS@.len()
    }

    /// A histogram that has seen nothing.
    pub fn new() -> (histogram: Self)
        ensures
            histogram@ == HistogramView::empty(),
    {
        let n: usize = LATENCY_BUCKETS.len();
        let mut counts: Vec<u64> = Vec::new();
        let mut i: usize = 0;
        while i < n
            invariant
                i <= n,
                n == LATENCY_BUCKETS@.len(),
                counts@ == Seq::new(i as nat, |k: int| 0u64),
            decreases n - i,
        {
            counts.push(0);
            i += 1;
        }
        Histogram { counts, sum_nanos: 0, count: 0 }
    }

    /// This histogram with one more latency in it.
    pub fn observe(&self, latency: Duration) -> (histogram: Self)
        ensures
            histogram@ == self@.observed(latency@),
    {
        proof {
            use_type_invariant(self);
        }
        let nanos: u128 = latency.as_nanos();
        let n: usize = LATENCY_BUCKETS.len();
        let ghost after = self@.observed(latency@);
        let mut counts: Vec<u64> = Vec::new();
        let mut i: usize = 0;
        while i < n
            invariant
                i <= n,
                n == LATENCY_BUCKETS@.len(),
                nanos == latency@,
                after == self@.observed(latency@),
                self.counts@.len() == n,
                counts@ == after.counts.take(i as int),
            decreases n - i,
        {
            if nanos <= LATENCY_BUCKETS[i] as u128 {
                counts.push(self.counts[i].wrapping_add(1));
            } else {
                counts.push(self.counts[i]);
            }
            assert(counts@ =~= after.counts.take(i + 1));
            i += 1;
        }
        assert(after.counts.take(n as int) =~= after.counts);
        let added: u64 = if nanos > u64::MAX as u128 {
            u64::MAX
        } else {
            nanos as u64
        };
        Histogram {
            counts,
            sum_nanos: self.sum_nanos.wrapping_add(added),
            count: self.count.wrapping_add(1),
        }
    }
}

/// The registry by its contents. Responses are counted under the status class
/// and the prefix, joined by a bar.
#[verifier::ext_equal]
pub struct MetricsView {
    pub counters: Map<Seq<char>, PrefixCounters>,
    pub latencies: Map<Seq<char>, HistogramView>,
    pub responses: Map<Seq<char>, u64>,
    pub breaker_state: Map<Seq<char>, u8>,
}

/// The key that responses of one status class are counted under.
pub open spec fn response_key(class: Seq<char>, prefix: Seq<char>) -> Seq<char> {
    class + "|"@ + prefix
}

/// How the gauge shows a breaker state.
pub open spec fn gauge_value(state: State) -> u8 {
    match state {
        State::Closed => 0,
        State::HalfOpen => 1,
        State::Open => 2,
    }
}

impl MetricsView {
    /// A registry that has counted nothing.
    pub open spec fn empty() -> MetricsView {
        MetricsView {
            counters: Map::empty(),
            latencies: Map::empty(),
            responses: Map::empty(),
            breaker_state: Map::empty(),
        }
    }

    /// The counters of `prefix`, all zero where nothing was counted yet.
    pub open spec fn counters_of(self, prefix: Seq<char>) -> PrefixCounters {
        if self.counters.contains_key(prefix) {
            self.counters[prefix]
        } else {
            PrefixCounters::zero()
        }
    }

    /// The histogram of `prefix`, empty where nothing was observed yet.
    pub open spec fn latency_of(self, prefix: Seq<char>) -> HistogramView {
        if self.latencies.contains_key(prefix) {
            self.latencies[prefix]
        } else {
            HistogramView::empty()
        }
    }

    /// How many responses were counted under `key`.
    pub open spec fn responses_under(self, key: Seq<char>) -> u64 {
        if self.responses.contains_key(key) {
            self.responses[key]
        } else {
            0
        }
    }

    /// The registry after a proxied request to `prefix` that ended with a
    /// response of `class` after `nanos` nanoseconds. A request that never
    /// produced a status counts as a request only.
    pub open spec fn finished(
        self,
        prefix: Seq<char>,
        class: Option<Seq<char>>,
        nanos: nat,
    ) -> MetricsView {
        let counters = self.counters_of(prefix);
        MetricsView {
            counters: self.counters.insert(
                prefix,
                PrefixCounters { requests_total: counted(counters.requests_total), ..counters },
            ),
            latencies: match class {
                Some(_) => self.latencies.insert(
                    prefix,
                    self.latency_of(prefix).observed(nanos),
                ),
                None => self.latencies,
            },
            responses: match class {
                Some(class) => {
                    let key = response_key(class, prefix);
                    self.responses.insert(key, counted(self.responses_under(key)))
                },
                None => self.responses,
            },
            ..self
        }
    }

    /// The registry after a request to `prefix` was rejected by the limiter.
    pub open spec fn rate_limited(self, prefix: Seq<char>) -> MetricsView {
        let counters = self.counters_of(prefix);
        MetricsView {
            counters: self.counters.insert(
                prefix,
                PrefixCounters {
                    rate_limited_total: counted(counters.rate_limited_total),
                    ..counters
                },
            ),
            ..self
        }
    }

    /// The registry after an open breaker turned a request to `prefix` away.
    pub open spec fn circuit_opened(self, prefix: Seq<char>) -> MetricsView {
        let counters = self.counters_of(prefix);
        MetricsView {
            counters: self.counters.insert(
                prefix,
                PrefixCounters {
                    circuit_open_total: counted(counters.circuit_open_total),
                    ..counters
                },
            ),
            ..self
        }
    }

    /// The registry after the state of the breaker of `prefix` was published.
    pub open spec fn published(self, prefix: Seq<char>, state: State) -> MetricsView {
        MetricsView {
            breaker_state: self.breaker_state.insert(prefix, gauge_value(state)),
            ..self
        }
    }

    /// The prefixes that the registry has anything on.
    pub open spec fn prefixes(self) -> Set<Seq<char>> {
        self.counters.dom().union(self.latencies.dom()).union(self.breaker_state.dom())
    }
}

/// The metrics registry.
#[derive(Debug)]
pub struct Metrics {
    per_prefix: Table<PrefixCounters>,
    latencies: Table<Histogram>,
    status_totals: Table<u64>,
    breaker_state: Table<u8>,
}

impl View for Metrics {
    type V = MetricsView;

    closed spec fn view(&self) -> MetricsView {
        MetricsView {
            counters: self.per_prefix@,
            latencies: self.latencies@.map_values(|histogram: Histogram| histogram@),
            responses: self.status_totals@,
            breaker_state: self.breaker_state@,
        }
    }
}

/// One request under observation. Made by [`Metrics::start_request`], so that
/// the moment at which the clock starts is explicit.
#[derive(Debug)]
pub struct RequestTimer {
    prefix: String,
    stopwatch: Stopwatch,
}

impl RequestTimer {
    /// The prefix of the request.
    pub closed spec fn prefix(&self) -> Seq<char> {
        self.prefix@
    }

    /// The stopwatch that times the request.
    pub closed spec fn stopwatch(&self) -> Stopwatch {
        self.stopwatch
    }

    /// The time since the request was started.
    pub fn elapsed(&self) -> (elapsed: Duration)
        ensures
            self.stopwatch().shows(elapsed@),
    {
        self.stopwatch.elapsed()
    }

    /// Records the outcome of a request that took `elapsed`. Without a status
    /// class the request never produced a status, and counts as a request only.
    pub fn finish_after(
        self,
        metrics: &mut Metrics,
        status_class: Option<&str>,
        elapsed: Duration,
    )
        ensures
            final(metrics)@ == old(metrics)@.finished(
                self.prefix(),
                optional_text(status_class),
                elapsed@,
            ),
    {
        let mut counters = metrics.counters_for(self.prefix.as_str());
        counters.requests_total = counters.requests_total.wrapping_add(1);
        metrics.per_prefix.insert(self.prefix.clone(), counters);
        if let Some(class) = status_class {
            let key = class.to_owned().concat("|").concat(self.prefix.as_str());
            let total: u64 = match metrics.status_totals.get(key.as_str()) {
                Some(total) => *total,
                None => 0,
            };
            metrics.status_totals.insert(key, total.wrapping_add(1));
            let histogram = match metrics.latencies.get(self.prefix.as_str()) {
                Some(histogram) => histogram.observe(elapsed),
                None => Histogram::new().observe(elapsed),
            };
            metrics.latencies.insert(self.prefix.clone(), histogram);
        }
        assert(metrics@ =~= old(metrics)@.finished(
            self.prefix@,
            optional_text(status_class),
            elapsed@,
        ));
    }

    /// Records the outcome, timed from the start of the request until now.
    pub fn finish(self, metrics: &mut Metrics, status_class: Option<&str>)
        ensures
            exists|nanos: nat|
                self.stopwatch().shows(nanos) && final(metrics)@
                    == #[trigger] old(metrics)@.finished(
                    self.prefix(),
                    optional_text(status_class),
                    nanos,
                ),
    {
        let elapsed = self.elapsed();
        let ghost class = optional_text(status_class);
        let ghost prefix = self.prefix@;
        self.finish_after(metrics, status_class, elapsed);
        assert(metrics@ == old(metrics)@.finished(prefix, class, elapsed@));
    }
}

impl Metrics {
    /// A registry that has counted nothing.
    pub fn new() -> (metrics: Self)
        ensures
            metrics@ == MetricsView::empty(),
    {
        let metrics = Metrics {
            per_prefix: Table::new(),
            latencies: Table::new(),
            status_totals: Table::new(),
            breaker_state: Table::new(),
        };
        assert(metrics@ =~= MetricsView::empty());
        metrics
    }

    fn counters_for(&self, prefix: &str) -> (counters: PrefixCounters)
        ensures
            counters == self@.counters_of(prefix@),
    {
        match self.per_prefix.get(prefix) {
            Some(counters) => *counters,
            None => PrefixCounters {
                requests_total: 0,
                rate_limited_total: 0,
                circuit_open_total: 0,
            },
        }
    }

    /// Starts timing a request to `prefix`. What it came to is recorded with
    /// [`RequestTimer::finish`].
    pub fn start_request(&self, prefix: &str) -> (timer: RequestTimer)
        ensures
            timer.prefix() == prefix@,
            timer.stopwatch().is_started_now(),
    {
        RequestTimer { prefix: prefix.to_owned(), stopwatch: Stopwatch::start() }
    }

    /// Counts a rejection by the rate limiter.
    pub fn inc_rate_limited(&mut self, prefix: &str)
        ensures
            final(self)@ == old(self)@.rate_limited(prefix@),
    {
        let mut counters = self.counters_for(prefix);
        counters.rate_limited_total = counters.rate_limited_total.wrapping_add(1);
        self.per_prefix.insert(prefix.to_owned(), counters);
        assert(self@ =~= old(self)@.rate_limited(prefix@));
    }

    /// Counts a short-circuit by an open breaker.
    pub fn inc_circuit_open(&mut self, prefix: &str)
        ensures
            final(self)@ == old(self)@.circuit_opened(prefix@),
    {
        let mut counters = self.counters_for(prefix);
        counters.circuit_open_total = counters.circuit_open_total.wrapping_add(1);
        self.per_prefix.insert(prefix.to_owned(), counters);
        assert(self@ =~= old(self)@.circuit_opened(prefix@));
    }

    /// Publishes the state of the breaker of `prefix`. Called when the metrics
    /// are read rather than when a breaker changes: the breaker stays the only
    /// source of its state.
    pub fn set_breaker_state(&mut self, prefix: &str, state: State)
        ensures
            final(self)@ == old(self)@.published(prefix@, state),
    {
        let value: u8 = match state {
            State::Closed => 0,
            State::HalfOpen => 1,
            State::Open => 2,
        };
        self.breaker_state.insert(prefix.to_owned(), value);
        assert(self@ =~= old(self)@.published(prefix@, state));
    }
}

/// The counters that the registry keeps for each prefix.
#[derive(Debug, Clone, Copy, PartialEq, Eq, Structural)]
pub enum CounterKind {
    Requests,
    RateLimited,
    CircuitOpen,
}

/// The name of a counter in the exposition.
pub open spec fn counter_name(kind: CounterKind) -> Seq<char> {
    match kind {
        CounterKind::Requests => "ratewall_requests_total"@,
        CounterKind::RateLimited => "ratewall_rate_limited_total"@,
        CounterKind::CircuitOpen => "ratewall_circuit_open_total"@,
    }
}

/// What the exposition says of a counter before its values.
pub open spec fn counter_header(kind: CounterKind) -> Seq<char> {
    match kind {
        CounterKind::Requests =>
            "# HELP ratewall_requests_total Proxied requests per route prefix.\n# TYPE ratewall_requests_total counter\n"@,
        CounterKind::RateLimited =>
            "# HELP ratewall_rate_limited_total Requests rejected with 429 by the rate limiter.\n# TYPE ratewall_rate_limited_total counter\n"@,
        CounterKind::CircuitOpen =>
            "# HELP ratewall_circuit_open_total Requests short-circuited with 503 by an open breaker.\n# TYPE ratewall_circuit_open_total counter\n"@,
    }
}

/// The value of a counter.
pub open spec fn counter_value(kind: CounterKind, counters: PrefixCounters) -> u64 {
    match kind {
        CounterKind::Requests => counters.requests_total,
        CounterKind::RateLimited => counters.rate_limited_total,
        CounterKind::CircuitOpen => counters.circuit_open_total,
    }
}

/// A line with the prefix as its only label.
pub open spec fn sample(name: Seq<char>, prefix: Seq<char>, value: Seq<char>) -> Seq<char> {
    name + "{prefix=\""@ + prefix + "\"} "@ + value + "\n"@
}

/// The lines of a counter, one for each of `prefixes`.
pub open spec fn counter_lines(
    kind: CounterKind,
    metrics: MetricsView,
    prefixes: Seq<Seq<char>>,
) -> Seq<char>
    decreases prefixes.len(),
{
    if prefixes.len() == 0 {
        Seq::empty()
    } else {
        let value = counter_value(kind, metrics.counters_of(prefixes.last()));
        counter_lines(kind, metrics, prefixes.drop_last()) + sample(
            counter_name(kind),
            prefixes.last(),
            decimal(value as nat),
        )
    }
}

/// What stands before the first bar of a response key and what stands after
/// it. A key without a bar is all prefix, of the class `unknown`.
pub open spec fn split_response_key(key: Seq<char>) -> (Seq<char>, Seq<char>) {
    match split_once(key, '|') {
        Some((class, prefix)) => (class, prefix),
        None => ("unknown"@, key),
    }
}

/// The line of the responses under one key.
pub open spec fn response_line(key: Seq<char>, total: u64) -> Seq<char> {
    let (class, prefix) = split_response_key(key);
    "ratewall_responses_total{prefix=\""@ + prefix + "\",class=\""@ + class + "\"} "@ + decimal(
        total as nat,
    ) + "\n"@
}

/// The lines of the responses, one for each of `keys`.
pub open spec fn response_lines(metrics: MetricsView, keys: Seq<Seq<char>>) -> Seq<char>
    decreases keys.len(),
{
    if keys.len() == 0 {
        Seq::empty()
    } else {
        response_lines(metrics, keys.drop_last()) + response_line(
            keys.last(),
            metrics.responses[keys.last()],
        )
    }
}

/// A length of time in seconds, with no more decimals than it needs.
pub open spec fn seconds(nanos: nat) -> Seq<char> {
    let whole = decimal(nanos / NANOS_PER_SEC as nat);
    let rest = nanos % NANOS_PER_SEC as nat;
    if rest == 0 {
        whole
    } else {
        whole + "."@ + trim_end_of(padded_decimal(rest, 9), '0')
    }
}

/// A length of time in seconds, with all nine decimals.
pub open spec fn precise_seconds(nanos: nat) -> Seq<char> {
    decimal(nanos / NANOS_PER_SEC as nat) + "."@ + padded_decimal(
        nanos % NANOS_PER_SEC as nat,
        9,
    )
}

/// The line of one latency bucket.
pub open spec fn bucket_line(prefix: Seq<char>, bound: Seq<char>, count: u64) -> Seq<char> {
    "ratewall_request_duration_seconds_bucket{prefix=\""@ + prefix + "\",le=\""@ + bound
        + "\"} "@ + decimal(count as nat) + "\n"@
}

/// The lines of the first `n` latency buckets.
pub open spec fn bucket_lines(prefix: Seq<char>, histogram: HistogramView, n: nat) -> Seq<char>
    decreases n,
{
    if n == 0 {
        Seq::empty()
    } else {
        bucket_lines(prefix, histogram, (n - 1) as nat) + bucket_line(
            prefix,
            seconds(LATENCY_BUCKETS@[n - 1] as nat),
            histogram.counts[n - 1],
        )
    }
}

/// The lines of one histogram.
pub open spec fn histogram_lines(prefix: Seq<char>, histogram: HistogramView) -> Seq<char> {
    bucket_lines(prefix, histogram, LATENCY_BUCKETS@.len()) + bucket_line(
        prefix,
        "+Inf"@,
        histogram.count,
    ) + sample(
        "ratewall_request_duration_seconds_sum"@,
        prefix,
        precise_seconds(histogram.sum_nanos as nat),
    ) + sample(
        "ratewall_request_duration_seconds_count"@,
        prefix,
        decimal(histogram.count as nat),
    )
}

/// The lines of the histograms of those of `prefixes` that have one.
pub open spec fn latency_lines(metrics: MetricsView, prefixes: Seq<Seq<char>>) -> Seq<char>
    decreases prefixes.len(),
{
    if prefixes.len() == 0 {
        Seq::empty()
    } else {
        let before = latency_lines(metrics, prefixes.drop_last());
        if metrics.latencies.contains_key(prefixes.last()) {
            before + histogram_lines(prefixes.last(), metrics.latencies[prefixes.last()])
        } else {
            before
        }
    }
}

/// The lines of the breakers of those of `prefixes` that have one.
pub open spec fn breaker_lines(metrics: MetricsView, prefixes: Seq<Seq<char>>) -> Seq<char>
    decreases prefixes.len(),
{
    if prefixes.len() == 0 {
        Seq::empty()
    } else {
        let before = breaker_lines(metrics, prefixes.drop_last());
        if metrics.breaker_state.contains_key(prefixes.last()) {
            before + sample(
                "ratewall_breaker_state"@,
                prefixes.last(),
                decimal(metrics.breaker_state[prefixes.last()] as nat),
            )
        } else {
            before
        }
    }
}

/// The text exposition of a registry. Families that go by prefix list every
/// prefix that the registry has anything on, in increasing order.
pub open spec fn exposition(metrics: MetricsView) -> Seq<char> {
    let prefixes = listed(metrics.prefixes());
    counter_header(CounterKind::Requests)
        + counter_lines(CounterKind::Requests, metrics, prefixes)
        + counter_header(CounterKind::RateLimited)
        + counter_lines(CounterKind::RateLimited, metrics, prefixes)
        + counter_header(CounterKind::CircuitOpen)
        + counter_lines(CounterKind::CircuitOpen, metrics, prefixes)
        + "# HELP ratewall_responses_total Backend responses by status class.\n# TYPE ratewall_responses_total counter\n"@
        + response_lines(metrics, listed(metrics.responses.dom()))
        + "# HELP ratewall_request_duration_seconds Proxied request latency per route prefix.\n# TYPE ratewall_request_duration_seconds histogram\n"@
        + latency_lines(metrics, prefixes)
        + "# HELP ratewall_breaker_state Circuit breaker state per backend (0 closed, 1 half-open, 2 open).\n# TYPE ratewall_breaker_state gauge\n"@
        + breaker_lines(metrics, prefixes)
}

fn push_sample(out: &mut String, name: &str, prefix: &str, value: &str)
    ensures
        final(out)@ == old(out)@ + sample(name@, prefix@, value@),
{
    out.append(name);
    out.append("{prefix=\"");
    out.append(prefix);
    out.append("\"} ");
    out.append(value);
    out.append("\n");
    assert(out@ =~= old(out)@ + sample(name@, prefix@, value@));
}

fn push_bucket(out: &mut String, prefix: &str, bound: &str, count: u64)
    ensures
        final(out)@ == old(out)@ + bucket_line(prefix@, bound@, count),
{
    out.append("ratewall_request_duration_seconds_bucket{prefix=\"");
    out.append(prefix);
    out.append("\",le=\"");
    out.append(bound);
    out.append("\"} ");
    write_decimal(out, count);
    out.append("\n");
    assert(out@ =~= old(out)@ + bucket_line(prefix@, bound@, count));
}

fn seconds_of(nanos: u64) -> (text: String)
    ensures
        text@ == seconds(nanos as nat),
{
    let mut text = decimal_of(nanos / NANOS_PER_SEC as u64);
    let rest: u64 = nanos % NANOS_PER_SEC as u64;
    if rest != 0 {
        let mut decimals = String::new();
        write_padded(&mut decimals, rest, 9);
        assert(decimals@ =~= padded_decimal(rest as nat, 9));
        text.append(".");
        text.append(trim_end(decimals.as_str(), '0').as_str());
    }
    text
}

fn precise_seconds_of(nanos: u64) -> (text: String)
    ensures
        text@ == precise_seconds(nanos as nat),
{
    let mut text = decimal_of(nanos / NANOS_PER_SEC as u64);
    text.append(".");
    write_padded(&mut text, nanos % NANOS_PER_SEC as u64, 9);
    text
}

impl Histogram {
    fn push_lines(&self, out: &mut String, prefix: &str)
        ensures
            final(out)@ == old(out)@ + histogram_lines(prefix@, self@),
    {
        proof {
            use_type_invariant(self);
        }
        let n: usize = LATENCY_BUCKETS.len();
        let mut i: usize = 0;
        while i < n
            invariant
                i <= n,
                n == LATENCY_BUCKETS@.len(),
                self.counts@.len() == n,
                out@ =~= old(out)@ + bucket_lines(prefix@, self@, i as nat),
            decreases n - i,
        {
            push_bucket(out, prefix, seconds_of(LATENCY_BUCKETS[i]).as_str(), self.counts[i]);
            i += 1;
        }
        push_bucket(out, prefix, "+Inf", self.count);
        push_sample(
            out,
            "ratewall_request_duration_seconds_sum",
            prefix,
            precise_seconds_of(self.sum_nanos).as_str(),
        );
        push_sample(
            out,
            "ratewall_request_duration_seconds_count",
            prefix,
            decimal_of(self.count).as_str(),
        );
        assert(out@ =~= old(out)@ + histogram_lines(prefix@, self@));
    }
}

/// Adds the keys of `table` to `keys`.
fn add_keys<V>(keys: &mut Table<()>, table: &Table<V>)
    ensures
        final(keys)@.dom() == old(keys)@.dom().union(table@.dom()),
{
    let n: usize = table.len();
    let mut i: usize = 0;
    assert(keys@.dom() =~= old(keys)@.dom().union(table.keys().take(0).to_set()));
    while i < n
        invariant
            i <= n,
            n == table.keys().len(),
            keys@.dom() == old(keys)@.dom().union(table.keys().take(i as int).to_set()),
        decreases n - i,
    {
        let key = table.key_at(i);
        let ghost before = keys@;
        keys.insert(key.clone(), ());
        proof {
            let listed_before = table.keys().take(i as int);
            let listed_now = table.keys().take(i + 1);
            assert(listed_now =~= listed_before.push(key@));
            assert forall|k: Seq<char>|
                listed_now.to_set().contains(k) <==> (listed_before.to_set().contains(k) || k
                    == key@) by {
                if listed_before.contains(k) {
                    assert(listed_now[listed_before.index_of(k)] == k);
                }
                if k == key@ {
                    assert(listed_now[i as int] == k);
                }
                if listed_now.contains(k) && k != key@ {
                    assert(listed_before[listed_now.index_of(k)] == k);
                }
            }
            assert(keys@.dom() =~= old(keys)@.dom().union(listed_now.to_set()));
        }
        i += 1;
    }
    proof {
        assert(table.keys().take(n as int) =~= table.keys());
        assert forall|k: Seq<char>| table.keys().to_set().contains(k) <==> table@.dom().contains(
            k,
        ) by {
            assert(table.keys().contains(k) <==> table@.dom().contains(k));
        }
        assert(table.keys().to_set() =~= table@.dom());
    }
}

impl Metrics {
    /// Every prefix that the registry has anything on.
    fn prefixes(&self) -> (prefixes: Table<()>)
        ensures
            prefixes@.dom() == self@.prefixes(),
    {
        let mut prefixes: Table<()> = Table::new();
        add_keys(&mut prefixes, &self.per_prefix);
        add_keys(&mut prefixes, &self.latencies);
        add_keys(&mut prefixes, &self.breaker_state);
        assert(prefixes@.dom() =~= self@.prefixes());
        prefixes
    }

    fn push_counters(&self, out: &mut String, kind: CounterKind, prefixes: &Table<()>)
        ensures
            final(out)@ == old(out)@ + counter_header(kind) + counter_lines(
                kind,
                self@,
                listed(prefixes@.dom()),
            ),
    {
        let (name, header) = match kind {
            CounterKind::Requests => (
                "ratewall_requests_total",
                "# HELP ratewall_requests_total Proxied requests per route prefix.\n# TYPE ratewall_requests_total counter\n",
            ),
            CounterKind::RateLimited => (
                "ratewall_rate_limited_total",
                "# HELP ratewall_rate_limited_total Requests rejected with 429 by the rate limiter.\n# TYPE ratewall_rate_limited_total counter\n",
            ),
            CounterKind::CircuitOpen => (
                "ratewall_circuit_open_total",
                "# HELP ratewall_circuit_open_total Requests short-circuited with 503 by an open breaker.\n# TYPE ratewall_circuit_open_total counter\n",
            ),
        };
        out.append(header);
        let ghost start = old(out)@ + counter_header(kind);
        let n: usize = prefixes.len();
        let mut i: usize = 0;
        while i < n
            invariant
                i <= n,
                n == prefixes.keys().len(),
                name@ == counter_name(kind),
                out@ =~= start + counter_lines(kind, self@, prefixes.keys().take(i as int)),
            decreases n - i,
        {
            let prefix = prefixes.key_at(i);
            let counters = self.counters_for(prefix.as_str());
            let value: u64 = match kind {
                CounterKind::Requests => counters.requests_total,
                CounterKind::RateLimited => counters.rate_limited_total,
                CounterKind::CircuitOpen => counters.circuit_open_total,
            };
            push_sample(out, name, prefix.as_str(), decimal_of(value).as_str());
            assert(prefixes.keys().take(i + 1).drop_last() =~= prefixes.keys().take(i as int));
            i += 1;
        }
        assert(prefixes.keys().take(n as int) =~= prefixes.keys());
    }

    fn push_responses(&self, out: &mut String)
        ensures
            final(out)@ == old(out)@ + response_lines(self@, listed(self@.responses.dom())),
    {
        let n: usize = self.status_totals.len();
        let ghost keys = self.status_totals.keys();
        let mut i: usize = 0;
        while i < n
            invariant
                i <= n,
                n == keys.len(),
                keys == self.status_totals.keys(),
                out@ =~= old(out)@ + response_lines(self@, keys.take(i as int)),
            decreases n - i,
        {
            push_response(
                out,
                self.status_totals.key_at(i).as_str(),
                *self.status_totals.value_at(i),
            );
            assert(keys.take(i + 1).drop_last() =~= keys.take(i as int));
            i += 1;
        }
        assert(keys.take(n as int) =~= keys);
    }

    fn push_latencies(&self, out: &mut String, prefixes: &Table<()>)
        ensures
            final(out)@ == old(out)@ + latency_lines(self@, listed(prefixes@.dom())),
    {
        let n: usize = prefixes.len();
        let mut i: usize = 0;
        while i < n
            invariant
                i <= n,
                n == prefixes.keys().len(),
                out@ =~= old(out)@ + latency_lines(self@, prefixes.keys().take(i as int)),
            decreases n - i,
        {
            let prefix = prefixes.key_at(i);
            if let Some(histogram) = self.latencies.get(prefix.as_str()) {
                histogram.push_lines(out, prefix.as_str());
            }
            assert(prefixes.keys().take(i + 1).drop_last() =~= prefixes.keys().take(i as int));
            i += 1;
        }
        assert(prefixes.keys().take(n as int) =~= prefixes.keys());
    }

    fn push_breakers(&self, out: &mut String, prefixes: &Table<()>)
        ensures
            final(out)@ == old(out)@ + breaker_lines(self@, listed(prefixes@.dom())),
    {
        let n: usize = prefixes.len();
        let mut i: usize = 0;
        while i < n
            invariant
                i <= n,
                n == prefixes.keys().len(),
                out@ =~= old(out)@ + breaker_lines(self@, prefixes.keys().take(i as int)),
            decreases n - i,
        {
            let prefix = prefixes.key_at(i);
            if let Some(value) = self.breaker_state.get(prefix.as_str()) {
                push_sample(
                    out,
                    "ratewall_breaker_state",
                    prefix.as_str(),
                    decimal_of(*value as u64).as_str(),
                );
            }
            assert(prefixes.keys().take(i + 1).drop_last() =~= prefixes.keys().take(i as int));
            i += 1;
        }
        assert(prefixes.keys().take(n as int) =~= prefixes.keys());
    }

    /// The Prometheus text exposition. Everything is listed in a fixed order,
    /// so that two readings can be compared.
    pub fn render(&self) -> (text: String)
        ensures
            text@ == exposition(self@),
    {
        let prefixes = self.prefixes();
        let mut out = String::new();
        self.push_counters(&mut out, CounterKind::Requests, &prefixes);
        self.push_counters(&mut out, CounterKind::RateLimited, &prefixes);
        self.push_counters(&mut out, CounterKind::CircuitOpen, &prefixes);
        out.append(
            "# HELP ratewall_responses_total Backend responses by status class.\n# TYPE ratewall_responses_total counter\n",
        );
        self.push_responses(&mut out);
        out.append(
            "# HELP ratewall_request_duration_seconds Proxied request latency per route prefix.\n# TYPE ratewall_request_duration_seconds histogram\n",
        );
        self.push_latencies(&mut out, &prefixes);
        out.append(
            "# HELP ratewall_breaker_state Circuit breaker state per backend (0 closed, 1 half-open, 2 open).\n# TYPE ratewall_breaker_state gauge\n",
        );
        self.push_breakers(&mut out, &prefixes);
        assert(out@ =~= exposition(self@));
        out
    }
}

fn push_response(out: &mut String, key: &str, total: u64)
    ensures
        final(out)@ == old(out)@ + response_line(key@, total),
{
    let (class, prefix) = match split_at_first(key, '|') {
        Some((class, prefix)) => (class, prefix),
        None => ("unknown".to_owned(), key.to_owned()),
    };
    out.append("ratewall_responses_total{prefix=\"");
    out.append(prefix.as_str());
    out.append("\",class=\"");
    out.append(class.as_str());
    out.append("\"} ");
    write_decimal(out, total);
    out.append("\n");
    assert(out@ =~= old(out)@ + response_line(key@, total));
}

/// A response is shown under the class and the prefix that it was counted
/// under, as long as the class holds no bar.
pub proof fn law_response_key_is_split_back(class: Seq<char>, prefix: Seq<char>)
    requires
        !class.contains('|'),
    ensures
        split_response_key(response_key(class, prefix)) == (class, prefix),
{
    reveal_strlit("|");
    lemma_split_once(class, '|', prefix);
    assert(response_key(class, prefix) =~= class.push('|') + prefix);
}

/// How many of `latencies` are at most `bound`.
pub open spec fn at_most(latencies: Seq<nat>, bound: nat) -> nat
    decreases latencies.len(),
{
    if latencies.len() == 0 {
        0
    } else {
        at_most(latencies.drop_last(), bound) + if latencies.last() <= bound {
            1nat
        } else {
            0nat
        }
    }
}

proof fn lemma_at_most(latencies: Seq<nat>, low: nat, high: nat)
    requires
        low <= high,
    ensures
        at_most(latencies, low) <= at_most(latencies, high) <= latencies.len(),
    decreases latencies.len(),
{
    if latencies.len() > 0 {
        lemma_at_most(latencies.drop_last(), low, high);
    }
}

/// A histogram counts what it was shown: each bucket holds how many latencies
/// were at most its bound, and the total is how many there were, for as long
/// as the total fits its counter.
pub proof fn law_histogram_counts_latencies(latencies: Seq<nat>)
    requires
        latencies.len() <= u64::MAX,
    ensures
        HistogramView::empty().observed_all(latencies).count == latencies.len(),
        forall|i: int|
            0 <= i < LATENCY_BUCKETS@.len() ==> #[trigger] HistogramView::empty().observed_all(
                latencies,
            ).counts[i] == at_most(latencies, LATENCY_BUCKETS@[i] as nat),
    decreases latencies.len(),
{
    if latencies.len() > 0 {
        let before = latencies.drop_last();
        law_histogram_counts_latencies(before);
        let h = HistogramView::empty().observed_all(before);
        let after = HistogramView::empty().observed_all(latencies);
        assert forall|i: int| 0 <= i < LATENCY_BUCKETS@.len() implies #[trigger] after.counts[i]
            == at_most(latencies, LATENCY_BUCKETS@[i] as nat) by {
            let bound = LATENCY_BUCKETS@[i] as nat;
            assert(h.counts[i] == at_most(before, bound));
            lemma_at_most(before, bound, bound);
        }
    }
}

/// The buckets of a histogram are cumulative: none holds more than the next,
/// and none more than the total.
pub proof fn law_buckets_are_cumulative(latencies: Seq<nat>, i: int, j: int)
    requires
        latencies.len() <= u64::MAX,
        0 <= i <= j < LATENCY_BUCKETS@.len(),
    ensures
        ({
            let histogram = HistogramView::empty().observed_all(latencies);
            histogram.counts[i] <= histogram.counts[j] <= histogram.count
        }),
{
    law_histogram_counts_latencies(latencies);
    lemma_at_most(latencies, LATENCY_BUCKETS@[i] as nat, LATENCY_BUCKETS@[j] as nat);
}

/// The key of a response counter is made of one of `classes` and one of
/// `prefixes`.
pub open spec fn is_label_pair(
    key: Seq<char>,
    prefixes: Set<Seq<char>>,
    classes: Set<Seq<char>>,
) -> bool {
    exists|class: Seq<char>, prefix: Seq<char>|
        classes.contains(class) && prefixes.contains(prefix) && key == #[trigger] response_key(
            class,
            prefix,
        )
}

impl MetricsView {
    /// The registry labels with nothing but these prefixes and these classes.
    pub open spec fn labelled_by(self, prefixes: Set<Seq<char>>, classes: Set<Seq<char>>) -> bool {
        &&& self.counters.dom().subset_of(prefixes)
        &&& self.latencies.dom().subset_of(prefixes)
        &&& self.breaker_state.dom().subset_of(prefixes)
        &&& forall|key: Seq<char>| #[trigger]
            self.responses.contains_key(key) ==> is_label_pair(key, prefixes, classes)
    }
}

/// The registry never grows beyond the labels it is used with: an empty one
/// has none, and recording under known prefixes and classes adds no other.
pub proof fn law_labels_stay_bounded(
    metrics: MetricsView,
    prefixes: Set<Seq<char>>,
    classes: Set<Seq<char>>,
    prefix: Seq<char>,
    class: Option<Seq<char>>,
    nanos: nat,
    state: State,
)
    requires
        metrics.labelled_by(prefixes, classes),
        prefixes.contains(prefix),
        class is Some ==> classes.contains(class->0),
    ensures
        MetricsView::empty().labelled_by(prefixes, classes),
        metrics.finished(prefix, class, nanos).labelled_by(prefixes, classes),
        metrics.rate_limited(prefix).labelled_by(prefixes, classes),
        metrics.circuit_opened(prefix).labelled_by(prefixes, classes),
        metrics.published(prefix, state).labelled_by(prefixes, classes),
{
    if class is Some {
        assert(is_label_pair(response_key(class->0, prefix), prefixes, classes));
    }
}

/// What is recorded for one prefix leaves the numbers of every other as they are, and each
/// event adds one to its own counter only.
pub proof fn law_prefixes_are_counted_apart(
    metrics: MetricsView,
    prefix: Seq<char>,
    other: Seq<char>,
    class: Option<Seq<char>>,
    nanos: nat,
)
    requires
        prefix != other,
    ensures
        metrics.finished(prefix, class, nanos).counters_of(other) == metrics.counters_of(other),
        metrics.finished(prefix, class, nanos).latency_of(other) == metrics.latency_of(other),
        metrics.rate_limited(prefix).counters_of(other) == metrics.counters_of(other),
        metrics.circuit_opened(prefix).counters_of(other) == metrics.counters_of(other),
        metrics.finished(prefix, class, nanos).counters_of(prefix) == (PrefixCounters {
            requests_total: counted(metrics.counters_of(prefix).requests_total),
            ..metrics.counters_of(prefix)
        }),
        metrics.rate_limited(prefix).counters_of(prefix) == (PrefixCounters {
            rate_limited_total: counted(metrics.counters_of(prefix).rate_limited_total),
            ..metrics.counters_of(prefix)
        }),
        metrics.circuit_opened(prefix).counters_of(prefix) == (PrefixCounters {
            circuit_open_total: counted(metrics.counters_of(prefix).circuit_open_total),
            ..metrics.counters_of(prefix)
        }),
{
}

/// A request that never produced a status adds one to the requests of its prefix, and
/// changes nothing else.
pub proof fn law_request_without_status_only_counts(
    metrics: MetricsView,
    prefix: Seq<char>,
    nanos: nat,
)
    ensures
        ({
            let after = metrics.finished(prefix, None, nanos);
            &&& after.latencies == metrics.latencies
            &&& after.responses == metrics.responses
            &&& after.breaker_state == metrics.breaker_state
            &&& after.counters == metrics.counters.insert(
                prefix,
                PrefixCounters {
                    requests_total: counted(metrics.counters_of(prefix).requests_total),
                    ..metrics.counters_of(prefix)
                },
            )
        }),
{
}

/// One thing that a registry can be told.
pub enum MetricsEvent {
    Finished { prefix: Seq<char>, class: Option<Seq<char>>, nanos: nat },
    RateLimited { prefix: Seq<char> },
    CircuitOpened { prefix: Seq<char> },
    Published { prefix: Seq<char>, state: State },
}

impl MetricsView {
    /// The registry after one event.
    pub open spec fn told(self, event: MetricsEvent) -> MetricsView {
        match event {
            MetricsEvent::Finished { prefix, class, nanos } => self.finished(prefix, class, nanos),
            MetricsEvent::RateLimited { prefix } => self.rate_limited(prefix),
            MetricsEvent::CircuitOpened { prefix } => self.circuit_opened(prefix),
            MetricsEvent::Published { prefix, state } => self.published(prefix, state),
        }
    }

    /// The registry after one event after the other.
    pub open spec fn told_all(self, events: Seq<MetricsEvent>) -> MetricsView
        decreases events.len(),
    {
        if events.len() == 0 {
            self
        } else {
            self.told_all(events.drop_last()).told(events.last())
        }
    }
}

/// The latencies of the requests to `prefix` among `events` that produced a status.
pub open spec fn latencies_among(events: Seq<MetricsEvent>, prefix: Seq<char>) -> Seq<nat>
    decreases events.len(),
{
    if events.len() == 0 {
        Seq::empty()
    } else {
        let before = latencies_among(events.drop_last(), prefix);
        match events.last() {
            MetricsEvent::Finished { prefix: p, class: Some(_), nanos } if p == prefix =>
                before.push(nanos),
            _ => before,
        }
    }
}

/// Whatever a registry has been told, its histogram of a prefix is that of the latencies
/// of the requests to it that produced a status, in their order.
pub proof fn law_registry_observes_every_latency(events: Seq<MetricsEvent>, prefix: Seq<char>)
    ensures
        MetricsView::empty().told_all(events).latency_of(prefix)
            == HistogramView::empty().observed_all(latencies_among(events, prefix)),
        latencies_among(events, prefix).len() <= events.len(),
    decreases events.len(),
{
    if events.len() > 0 {
        law_registry_observes_every_latency(events.drop_last(), prefix);
        let before = latencies_among(events.drop_last(), prefix);
        let now = latencies_among(events, prefix);
        if now.len() > before.len() {
            assert(now.drop_last() =~= before);
        }
    }
}

/// Whatever a registry has been told, the buckets of each of its histograms are
/// cumulative, for as long as the total fits its counter.
pub proof fn law_registry_buckets_are_cumulative(
    events: Seq<MetricsEvent>,
    prefix: Seq<char>,
    i: int,
    j: int,
)
    requires
        events.len() <= u64::MAX,
        0 <= i <= j < LATENCY_BUCKETS@.len(),
    ensures
        ({
            let histogram = MetricsView::empty().told_all(events).latency_of(prefix);
            histogram.counts[i] <= histogram.counts[j] <= histogram.count
        }),
{
    law_registry_observes_every_latency(events, prefix);
    law_buckets_are_cumulative(latencies_among(events, prefix), i, j);
}

/// A length of time in whole nanoseconds, as `text` writes it out in seconds: digits before
/// the point and up to nine behind it that, filled up to nine with zeros and read as one
/// number, are `nanos`.
pub open spec fn reads_as_nanos(
    text: Seq<char>,
    whole: Seq<char>,
    decimals: Seq<char>,
    nanos: nat,
) -> bool {
    &&& decimals.len() <= 9
    &&& if decimals.len() == 0 {
        text == whole
    } else {
        text == whole + seq!['.'] + decimals
    }
    &&& whole.len() > 0
    &&& whole[0] == '0' ==> whole.len() == 1
    &&& is_digits(whole)
    &&& is_digits(decimals)
    &&& number_of(whole + decimals + run_of('0', (9 - decimals.len()) as nat)) == nanos
}

/// Lengths of time read as what they are, to the nanosecond, however long they are: with
/// all nine decimals where they are asked for, and else with as many as it takes.
pub proof fn law_seconds_read_back(nanos: nat)
    ensures
        exists|whole: Seq<char>, decimals: Seq<char>| #[trigger]
            reads_as_nanos(precise_seconds(nanos), whole, decimals, nanos) && decimals.len() == 9,
        exists|whole: Seq<char>, decimals: Seq<char>| #[trigger]
            reads_as_nanos(seconds(nanos), whole, decimals, nanos) && (decimals.len() > 0
                ==> decimals.last() != '0'),
{
    reveal_strlit(".");
    assert("."@ =~= seq!['.']);
    let rest = nanos % NANOS_PER_SEC as nat;
    let whole = decimal(nanos / NANOS_PER_SEC as nat);
    let decimals = padded_decimal(rest, 9);
    assert(power_of_ten(9) == 1_000_000_000) by {
        reveal_with_fuel(power_of_ten, 10);
    }
    law_decimal_reads_back(nanos / NANOS_PER_SEC as nat);
    law_padded_decimal_reads_back(rest, 9);
    lemma_number_of_joined(whole, decimals);
    assert(number_of(whole + decimals) == nanos);
    assert(whole + decimals + run_of('0', 0) =~= whole + decimals);
    assert(reads_as_nanos(precise_seconds(nanos), whole, decimals, nanos));
    let short = trim_end_of(decimals, '0');
    law_trimming_takes_the_run(decimals, '0');
    let n = choose|n: nat| n <= decimals.len() && decimals == short + #[trigger] run_of('0', n);
    assert(n == 9 - short.len());
    assert(whole + short + run_of('0', n) =~= whole + decimals);
    assert forall|i: int| 0 <= i < short.len() implies '0' <= #[trigger] short[i] <= '9' by {
        assert(short[i] == decimals[i]);
    }
    if rest == 0 {
        let none = Seq::<char>::empty();
        assert(run_of('0', 9) =~= decimals) by {
            lemma_zeros(9);
        }
        assert(whole + none + run_of('0', 9) =~= whole + decimals);
        assert(reads_as_nanos(seconds(nanos), whole, none, nanos));
    } else {
        if short.len() == 0 {
            assert(decimals =~= run_of('0', 9));
            lemma_zeros(9);
            assert(number_of(decimals) == 0) by {
                law_padded_decimal_reads_back(0, 9);
            }
        }
        assert(reads_as_nanos(seconds(nanos), whole, short, nanos));
    }
}

proof fn lemma_zeros(width: nat)
    ensures
        padded_decimal(0, width) == run_of('0', width),
    decreases width,
{
    if width > 0 {
        lemma_zeros((width - 1) as nat);
    }
    assert(padded_decimal(0, width) =~= run_of('0', width));
}

/// The sum of latencies.
pub open spec fn total_of(latencies: Seq<nat>) -> nat
    decreases latencies.len(),
{
    if latencies.len() == 0 {
        0
    } else {
        total_of(latencies.drop_last()) + latencies.last()
    }
}

/// A histogram adds up what it was shown, to the nanosecond, for as long as the sum fits its
/// counter.
pub proof fn law_histogram_sums_latencies(latencies: Seq<nat>)
    requires
        total_of(latencies) <= u64::MAX,
    ensures
        HistogramView::empty().observed_all(latencies).sum_nanos == total_of(latencies),
    decreases latencies.len(),
{
    if latencies.len() > 0 {
        law_histogram_sums_latencies(latencies.drop_last());
    }
}

/// An observation adds one to the total and the latency to the sum, both of which wrap
/// around at their end, and one to every bucket whose bound it does not exceed.
pub proof fn law_observations_add_up(histogram: HistogramView, nanos: nat, i: int)
    requires
        histogram.counts.len() == LATENCY_BUCKETS@.len(),
        0 <= i < LATENCY_BUCKETS@.len(),
    ensures
        histogram.observed(nanos).count == (histogram.count + 1) % 0x1_0000_0000_0000_0000,
        nanos <= u64::MAX ==> histogram.observed(nanos).sum_nanos == (histogram.sum_nanos
            + nanos) % 0x1_0000_0000_0000_0000,
        nanos > u64::MAX ==> histogram.observed(nanos).sum_nanos == (histogram.sum_nanos
            + u64::MAX) % 0x1_0000_0000_0000_0000,
        histogram.observed(nanos).counts.len() == LATENCY_BUCKETS@.len(),
        nanos <= LATENCY_BUCKETS@[i] ==> histogram.observed(nanos).counts[i] == (
            histogram.counts[i] + 1) % 0x1_0000_0000_0000_0000,
        nanos > LATENCY_BUCKETS@[i] ==> histogram.observed(nanos).counts[i]
            == histogram.counts[i],
{
}

/// How many of `events` are as `wanted` says.
pub open spec fn how_many(
    events: Seq<MetricsEvent>,
    wanted: spec_fn(MetricsEvent) -> bool,
) -> nat
    decreases events.len(),
{
    if events.len() == 0 {
        0
    } else {
        how_many(events.drop_last(), wanted) + if wanted(events.last()) {
            1nat
        } else {
            0nat
        }
    }
}

proof fn lemma_how_many(events: Seq<MetricsEvent>, wanted: spec_fn(MetricsEvent) -> bool)
    ensures
        how_many(events, wanted) <= events.len(),
    decreases events.len(),
{
    if events.len() > 0 {
        lemma_how_many(events.drop_last(), wanted);
    }
}

/// The state of the breaker of `prefix` that was published last, if one was.
pub open spec fn last_published(events: Seq<MetricsEvent>, prefix: Seq<char>) -> Option<State>
    decreases events.len(),
{
    if events.len() == 0 {
        None
    } else {
        match events.last() {
            MetricsEvent::Published { prefix: p, state } if p == prefix => Some(state),
            _ => last_published(events.drop_last(), prefix),
        }
    }
}

/// A registry counts what it was told, for as long as that fits its counters: the requests
/// to each prefix, the limiter's rejections and the breaker's, and the responses of each
/// class, whose key is the class, a bar and the prefix. Nothing is listed that it was not
/// told of.
pub proof fn law_registry_counts_every_event(
    events: Seq<MetricsEvent>,
    prefix: Seq<char>,
    key: Seq<char>,
)
    requires
        events.len() <= u64::MAX,
    ensures
        ({
            let registry = MetricsView::empty().told_all(events);
            let requests = how_many(
                events,
                |e: MetricsEvent| e is Finished && e->Finished_prefix == prefix,
            );
            let limited = how_many(
                events,
                |e: MetricsEvent| e is RateLimited && e->RateLimited_prefix == prefix,
            );
            let opened = how_many(
                events,
                |e: MetricsEvent| e is CircuitOpened && e->CircuitOpened_prefix == prefix,
            );
            let responses = how_many(
                events,
                |e: MetricsEvent|
                    e is Finished && e->class is Some && e->class->0 + seq!['|']
                        + e->Finished_prefix == key,
            );
            &&& registry.counters_of(prefix).requests_total == requests
            &&& registry.counters_of(prefix).rate_limited_total == limited
            &&& registry.counters_of(prefix).circuit_open_total == opened
            &&& registry.counters.contains_key(prefix) <==> requests + limited + opened > 0
            &&& registry.responses_under(key) == responses
            &&& registry.responses.contains_key(key) <==> responses > 0
        }),
    decreases events.len(),
{
    reveal_strlit("|");
    assert("|"@ =~= seq!['|']);
    let requests = |e: MetricsEvent| e is Finished && e->Finished_prefix == prefix;
    let limited = |e: MetricsEvent| e is RateLimited && e->RateLimited_prefix == prefix;
    let opened = |e: MetricsEvent| e is CircuitOpened && e->CircuitOpened_prefix == prefix;
    let responses = |e: MetricsEvent|
        e is Finished && e->class is Some && e->class->0 + seq!['|'] + e->Finished_prefix == key;
    if events.len() > 0 {
        let before = events.drop_last();
        law_registry_counts_every_event(before, prefix, key);
        lemma_how_many(before, requests);
        lemma_how_many(before, limited);
        lemma_how_many(before, opened);
        lemma_how_many(before, responses);
        let event = events.last();
        match event {
            MetricsEvent::Finished { prefix: p, class, nanos } => {
                if class is Some {
                    assert(response_key(class->0, p) == class->0 + seq!['|'] + p);
                }
            },
            _ => {},
        }
    }
}

/// The gauge of a breaker shows the state that was published last, and there is none before:
/// closed as 0, half-open as 1 and open as 2.
pub proof fn law_gauge_shows_the_last_state(events: Seq<MetricsEvent>, prefix: Seq<char>)
    ensures
        ({
            let registry = MetricsView::empty().told_all(events);
            let state = last_published(events, prefix);
            &&& registry.breaker_state.contains_key(prefix) <==> state is Some
            &&& state == Some(State::Closed) ==> registry.breaker_state[prefix] == 0
            &&& state == Some(State::HalfOpen) ==> registry.breaker_state[prefix] == 1
            &&& state == Some(State::Open) ==> registry.breaker_state[prefix] == 2
        }),
    decreases events.len(),
{
    if events.len() > 0 {
        law_gauge_shows_the_last_state(events.drop_last(), prefix);
    }
}

/// Whatever a registry has been told, its histogram of a prefix adds up to the latencies of
/// the requests to it, and every one of them that is at most the bound of a bucket is in
/// that bucket. A prefix without such a request has no histogram.
pub proof fn law_registry_times_every_request(
    events: Seq<MetricsEvent>,
    prefix: Seq<char>,
    i: int,
)
    requires
        events.len() <= u64::MAX,
        total_of(latencies_among(events, prefix)) <= u64::MAX,
        0 <= i < LATENCY_BUCKETS@.len(),
    ensures
        ({
            let latencies = latencies_among(events, prefix);
            let registry = MetricsView::empty().told_all(events);
            &&& registry.latencies.contains_key(prefix) <==> latencies.len() > 0
            &&& registry.latency_of(prefix).count == latencies.len()
            &&& registry.latency_of(prefix).sum_nanos == total_of(latencies)
            &&& registry.latency_of(prefix).counts[i] == at_most(
                latencies,
                LATENCY_BUCKETS@[i] as nat,
            )
        }),
{
    law_registry_observes_every_latency(events, prefix);
    law_histogram_counts_latencies(latencies_among(events, prefix));
    law_histogram_sums_latencies(latencies_among(events, prefix));
    lemma_histograms_kept(events, prefix);
}

proof fn lemma_histograms_kept(events: Seq<MetricsEvent>, prefix: Seq<char>)
    ensures
        MetricsView::empty().told_all(events).latencies.contains_key(prefix)
            <==> latencies_among(events, prefix).len() > 0,
    decreases events.len(),
{
    if events.len() > 0 {
        lemma_histograms_kept(events.drop_last(), prefix);
    }
}

/// A text that is empty or ends where a line ends.
pub open spec fn is_whole_lines(text: Seq<char>) -> bool {
    text.len() == 0 || text.last() == '\n'
}

/// `line` stands in `text` at the start of a line.
pub open spec fn line_at(text: Seq<char>, line: Seq<char>, at: int) -> bool {
    &&& 0 <= at <= at + line.len() <= text.len()
    &&& at == 0 || text[at - 1] == '\n'
    &&& text.subrange(at, at + line.len()) == line
}

/// `line` is one of the lines of `text`.
pub open spec fn has_line(text: Seq<char>, line: Seq<char>) -> bool {
    exists|at: int| line_at(text, line, at)
}

proof fn lemma_line_between(before: Seq<char>, part: Seq<char>, after: Seq<char>, line: Seq<char>)
    requires
        is_whole_lines(before),
        has_line(part, line),
    ensures
        has_line(before + part + after, line),
{
    let at = choose|at: int| line_at(part, line, at);
    let text = before + part + after;
    let to = before.len() + at;
    assert(text.subrange(to, to + line.len()) =~= part.subrange(at, at + line.len()));
    if at > 0 {
        assert(text[to - 1] == part[at - 1]);
    } else if before.len() > 0 {
        assert(text[to - 1] == before.last());
    }
    assert(line_at(text, line, to));
}

proof fn lemma_line_behind(before: Seq<char>, part: Seq<char>, line: Seq<char>)
    requires
        is_whole_lines(before),
        has_line(part, line),
    ensures
        has_line(before + part, line),
{
    lemma_line_between(before, part, Seq::empty(), line);
    assert(before + part + Seq::<char>::empty() =~= before + part);
}

proof fn lemma_line_in_front(part: Seq<char>, after: Seq<char>, line: Seq<char>)
    requires
        has_line(part, line),
    ensures
        has_line(part + after, line),
{
    lemma_line_between(Seq::empty(), part, after, line);
    assert(Seq::<char>::empty() + part + after =~= part + after);
}

proof fn lemma_line_itself(line: Seq<char>)
    ensures
        has_line(line, line),
{
    assert(line.subrange(0, line.len() as int) =~= line);
    assert(line_at(line, line, 0));
}

proof fn lemma_samples_end(name: Seq<char>, prefix: Seq<char>, value: Seq<char>)
    ensures
        is_whole_lines(sample(name, prefix, value)),
{
    reveal_strlit("\n");
    assert(sample(name, prefix, value).last() == "\n"@.last());
}

proof fn lemma_counter_lines(
    kind: CounterKind,
    metrics: MetricsView,
    prefixes: Seq<Seq<char>>,
    prefix: Seq<char>,
)
    ensures
        is_whole_lines(counter_lines(kind, metrics, prefixes)),
        prefixes.contains(prefix) ==> has_line(
            counter_lines(kind, metrics, prefixes),
            sample(
                counter_name(kind),
                prefix,
                decimal(counter_value(kind, metrics.counters_of(prefix)) as nat),
            ),
        ),
    decreases prefixes.len(),
{
    if prefixes.len() > 0 {
        let before = counter_lines(kind, metrics, prefixes.drop_last());
        let last = prefixes.last();
        let line = sample(
            counter_name(kind),
            last,
            decimal(counter_value(kind, metrics.counters_of(last)) as nat),
        );
        lemma_counter_lines(kind, metrics, prefixes.drop_last(), prefix);
        lemma_samples_end(
            counter_name(kind),
            last,
            decimal(counter_value(kind, metrics.counters_of(last)) as nat),
        );
        reveal_strlit("\n");
        assert(line.len() > 0);
        assert((before + line).last() == line.last());
        if prefix == last {
            lemma_line_itself(line);
            lemma_line_behind(before, line, line);
        } else if prefixes.contains(prefix) {
            let i = prefixes.index_of(prefix);
            assert(prefixes.drop_last()[i] == prefix);
            lemma_line_in_front(
                before,
                line,
                sample(
                    counter_name(kind),
                    prefix,
                    decimal(counter_value(kind, metrics.counters_of(prefix)) as nat),
                ),
            );
        }
    }
}

proof fn lemma_response_lines(metrics: MetricsView, keys: Seq<Seq<char>>, key: Seq<char>)
    ensures
        is_whole_lines(response_lines(metrics, keys)),
        keys.contains(key) ==> has_line(
            response_lines(metrics, keys),
            response_line(key, metrics.responses[key]),
        ),
    decreases keys.len(),
{
    if keys.len() > 0 {
        let before = response_lines(metrics, keys.drop_last());
        let line = response_line(keys.last(), metrics.responses[keys.last()]);
        lemma_response_lines(metrics, keys.drop_last(), key);
        reveal_strlit("\n");
        assert(line.last() == '\n');
        assert((before + line).last() == line.last());
        if key == keys.last() {
            lemma_line_itself(line);
            lemma_line_behind(before, line, line);
        } else if keys.contains(key) {
            let i = keys.index_of(key);
            assert(keys.drop_last()[i] == key);
            lemma_line_in_front(before, line, response_line(key, metrics.responses[key]));
        }
    }
}

proof fn lemma_bucket_lines(prefix: Seq<char>, histogram: HistogramView, n: nat, i: int)
    requires
        n <= LATENCY_BUCKETS@.len(),
    ensures
        is_whole_lines(bucket_lines(prefix, histogram, n)),
        0 <= i < n ==> has_line(
            bucket_lines(prefix, histogram, n),
            bucket_line(prefix, seconds(LATENCY_BUCKETS@[i] as nat), histogram.counts[i]),
        ),
    decreases n,
{
    if n > 0 {
        let before = bucket_lines(prefix, histogram, (n - 1) as nat);
        let line = bucket_line(
            prefix,
            seconds(LATENCY_BUCKETS@[n - 1] as nat),
            histogram.counts[n - 1],
        );
        lemma_bucket_lines(prefix, histogram, (n - 1) as nat, i);
        reveal_strlit("\n");
        assert(line.last() == '\n');
        assert((before + line).last() == line.last());
        if i == n - 1 {
            lemma_line_itself(line);
            lemma_line_behind(before, line, line);
        } else if 0 <= i < n {
            lemma_line_in_front(
                before,
                line,
                bucket_line(prefix, seconds(LATENCY_BUCKETS@[i] as nat), histogram.counts[i]),
            );
        }
    }
}

/// What the lines of a histogram are.
pub open spec fn is_histogram_line(
    prefix: Seq<char>,
    histogram: HistogramView,
    line: Seq<char>,
) -> bool {
    ||| exists|i: int|
        0 <= i < LATENCY_BUCKETS@.len() && line == bucket_line(
            prefix,
            seconds(LATENCY_BUCKETS@[i] as nat),
            #[trigger] histogram.counts[i],
        )
    ||| line == bucket_line(prefix, "+Inf"@, histogram.count)
    ||| line == sample(
        "ratewall_request_duration_seconds_sum"@,
        prefix,
        precise_seconds(histogram.sum_nanos as nat),
    )
    ||| line == sample(
        "ratewall_request_duration_seconds_count"@,
        prefix,
        decimal(histogram.count as nat),
    )
}

proof fn lemma_histogram_lines(prefix: Seq<char>, histogram: HistogramView, line: Seq<char>)
    ensures
        is_whole_lines(histogram_lines(prefix, histogram)),
        is_histogram_line(prefix, histogram, line) ==> has_line(
            histogram_lines(prefix, histogram),
            line,
        ),
{
    reveal_strlit("\n");
    let n = LATENCY_BUCKETS@.len();
    let buckets = bucket_lines(prefix, histogram, n);
    let all = bucket_line(prefix, "+Inf"@, histogram.count);
    let sum = sample(
        "ratewall_request_duration_seconds_sum"@,
        prefix,
        precise_seconds(histogram.sum_nanos as nat),
    );
    let count = sample(
        "ratewall_request_duration_seconds_count"@,
        prefix,
        decimal(histogram.count as nat),
    );
    lemma_bucket_lines(prefix, histogram, n, 0);
    assert(all.last() == '\n');
    assert(sum.last() == '\n');
    assert(count.last() == '\n');
    assert((buckets + all).last() == '\n');
    assert((buckets + all + sum).last() == '\n');
    assert(histogram_lines(prefix, histogram) == buckets + all + sum + count);
    assert(histogram_lines(prefix, histogram).last() == '\n');
    if is_histogram_line(prefix, histogram, line) {
        if line == count {
            lemma_line_itself(count);
            lemma_line_behind(buckets + all + sum, count, line);
        } else if line == sum {
            lemma_line_itself(sum);
            lemma_line_between(buckets + all, sum, count, line);
        } else if line == all {
            lemma_line_itself(all);
            lemma_line_between(buckets, all, sum, line);
            lemma_line_in_front(buckets + all + sum, count, line);
        } else {
            let i = choose|i: int|
                0 <= i < n && line == bucket_line(
                    prefix,
                    seconds(LATENCY_BUCKETS@[i] as nat),
                    #[trigger] histogram.counts[i],
                );
            lemma_bucket_lines(prefix, histogram, n, i);
            lemma_line_in_front(buckets, all, line);
            lemma_line_in_front(buckets + all, sum, line);
            lemma_line_in_front(buckets + all + sum, count, line);
        }
    }
}

proof fn lemma_latency_lines(
    metrics: MetricsView,
    prefixes: Seq<Seq<char>>,
    prefix: Seq<char>,
    line: Seq<char>,
)
    ensures
        is_whole_lines(latency_lines(metrics, prefixes)),
        prefixes.contains(prefix) && metrics.latencies.contains_key(prefix) && is_histogram_line(
            prefix,
            metrics.latencies[prefix],
            line,
        ) ==> has_line(latency_lines(metrics, prefixes), line),
    decreases prefixes.len(),
{
    if prefixes.len() > 0 {
        let before = latency_lines(metrics, prefixes.drop_last());
        let last = prefixes.last();
        lemma_latency_lines(metrics, prefixes.drop_last(), prefix, line);
        if prefixes.contains(prefix) && prefix != last {
            let i = prefixes.index_of(prefix);
            assert(prefixes.drop_last()[i] == prefix);
        }
        if metrics.latencies.contains_key(last) {
            let own = histogram_lines(last, metrics.latencies[last]);
            lemma_histogram_lines(last, metrics.latencies[last], line);
            assert(own.len() > 0 ==> (before + own).last() == own.last());
            assert(own.len() == 0 ==> before + own =~= before);
            if prefix == last {
                if is_histogram_line(prefix, metrics.latencies[prefix], line) {
                    lemma_line_behind(before, own, line);
                }
            } else if prefixes.contains(prefix) && metrics.latencies.contains_key(prefix)
                && is_histogram_line(prefix, metrics.latencies[prefix], line) {
                lemma_line_in_front(before, own, line);
            }
        }
    }
}

proof fn lemma_breaker_lines(
    metrics: MetricsView,
    prefixes: Seq<Seq<char>>,
    prefix: Seq<char>,
)
    ensures
        is_whole_lines(breaker_lines(metrics, prefixes)),
        prefixes.contains(prefix) && metrics.breaker_state.contains_key(prefix) ==> has_line(
            breaker_lines(metrics, prefixes),
            sample(
                "ratewall_breaker_state"@,
                prefix,
                decimal(metrics.breaker_state[prefix] as nat),
            ),
        ),
    decreases prefixes.len(),
{
    if prefixes.len() > 0 {
        let before = breaker_lines(metrics, prefixes.drop_last());
        let last = prefixes.last();
        lemma_breaker_lines(metrics, prefixes.drop_last(), prefix);
        if prefixes.contains(prefix) && prefix != last {
            let i = prefixes.index_of(prefix);
            assert(prefixes.drop_last()[i] == prefix);
        }
        if metrics.breaker_state.contains_key(last) {
            let line = sample(
                "ratewall_breaker_state"@,
                last,
                decimal(metrics.breaker_state[last] as nat),
            );
            reveal_strlit("\n");
            assert(line.last() == '\n');
            assert((before + line).last() == '\n');
            if prefix == last {
                lemma_line_itself(line);
                lemma_line_behind(before, line, line);
            } else if prefixes.contains(prefix) && metrics.breaker_state.contains_key(prefix) {
                lemma_line_in_front(
                    before,
                    line,
                    sample(
                        "ratewall_breaker_state"@,
                        prefix,
                        decimal(metrics.breaker_state[prefix] as nat),
                    ),
                );
            }
        }
    }
}

proof fn lemma_headers_end()
    ensures
        is_whole_lines(counter_header(CounterKind::Requests)),
        is_whole_lines(counter_header(CounterKind::RateLimited)),
        is_whole_lines(counter_header(CounterKind::CircuitOpen)),
        is_whole_lines(
            "# HELP ratewall_responses_total Backend responses by status class.\n# TYPE ratewall_responses_total counter\n"@,
        ),
        is_whole_lines(
            "# HELP ratewall_request_duration_seconds Proxied request latency per route prefix.\n# TYPE ratewall_request_duration_seconds histogram\n"@,
        ),
        is_whole_lines(
            "# HELP ratewall_breaker_state Circuit breaker state per backend (0 closed, 1 half-open, 2 open).\n# TYPE ratewall_breaker_state gauge\n"@,
        ),
{
    reveal_strlit(
        "# HELP ratewall_requests_total Proxied requests per route prefix.\n# TYPE ratewall_requests_total counter\n",
    );
    reveal_strlit(
        "# HELP ratewall_rate_limited_total Requests rejected with 429 by the rate limiter.\n# TYPE ratewall_rate_limited_total counter\n",
    );
    reveal_strlit(
        "# HELP ratewall_circuit_open_total Requests short-circuited with 503 by an open breaker.\n# TYPE ratewall_circuit_open_total counter\n",
    );
    reveal_strlit(
        "# HELP ratewall_responses_total Backend responses by status class.\n# TYPE ratewall_responses_total counter\n",
    );
    reveal_strlit(
        "# HELP ratewall_request_duration_seconds Proxied request latency per route prefix.\n# TYPE ratewall_request_duration_seconds histogram\n",
    );
    reveal_strlit(
        "# HELP ratewall_breaker_state Circuit breaker state per backend (0 closed, 1 half-open, 2 open).\n# TYPE ratewall_breaker_state gauge\n",
    );
}

proof fn lemma_joined_whole(a: Seq<char>, b: Seq<char>)
    requires
        is_whole_lines(a),
        is_whole_lines(b),
    ensures
        is_whole_lines(a + b),
{
    if b.len() > 0 {
        assert((a + b).last() == b.last());
    } else {
        assert(a + b =~= a);
    }
}

/// The parts of the exposition, in their order.
spec fn exposition_parts(metrics: MetricsView) -> Seq<Seq<char>> {
    let prefixes = listed(metrics.prefixes());
    seq![
        counter_header(CounterKind::Requests),
        counter_lines(CounterKind::Requests, metrics, prefixes),
        counter_header(CounterKind::RateLimited),
        counter_lines(CounterKind::RateLimited, metrics, prefixes),
        counter_header(CounterKind::CircuitOpen),
        counter_lines(CounterKind::CircuitOpen, metrics, prefixes),
        "# HELP ratewall_responses_total Backend responses by status class.\n# TYPE ratewall_responses_total counter\n"@,
        response_lines(metrics, listed(metrics.responses.dom())),
        "# HELP ratewall_request_duration_seconds Proxied request latency per route prefix.\n# TYPE ratewall_request_duration_seconds histogram\n"@,
        latency_lines(metrics, prefixes),
        "# HELP ratewall_breaker_state Circuit breaker state per backend (0 closed, 1 half-open, 2 open).\n# TYPE ratewall_breaker_state gauge\n"@,
        breaker_lines(metrics, prefixes),
    ]
}

/// Parts one after the other.
spec fn all_joined(parts: Seq<Seq<char>>) -> Seq<char>
    decreases parts.len(),
{
    if parts.len() == 0 {
        Seq::empty()
    } else {
        all_joined(parts.drop_last()) + parts.last()
    }
}

proof fn lemma_line_of_a_part(parts: Seq<Seq<char>>, i: int, line: Seq<char>)
    requires
        forall|k: int| 0 <= k < parts.len() ==> is_whole_lines(#[trigger] parts[k]),
    ensures
        is_whole_lines(all_joined(parts)),
        0 <= i < parts.len() && has_line(parts[i], line) ==> has_line(all_joined(parts), line),
    decreases parts.len(),
{
    if parts.len() > 0 {
        let before = parts.drop_last();
        assert forall|k: int| 0 <= k < before.len() implies is_whole_lines(
            #[trigger] before[k],
        ) by {
            assert(before[k] == parts[k]);
        }
        lemma_line_of_a_part(before, i, line);
        assert(is_whole_lines(parts[parts.len() - 1]));
        lemma_joined_whole(all_joined(before), parts.last());
        if 0 <= i < parts.len() && has_line(parts[i], line) {
            if i == parts.len() - 1 {
                lemma_line_behind(all_joined(before), parts.last(), line);
            } else {
                assert(before[i] == parts[i]);
                lemma_line_in_front(all_joined(before), parts.last(), line);
            }
        }
    }
}

#[verifier::spinoff_prover]
#[verifier::rlimit(30)]
proof fn lemma_exposition_is_joined(metrics: MetricsView)
    ensures
        exposition(metrics) == all_joined(exposition_parts(metrics)),
        forall|k: int|
            0 <= k < 12 ==> is_whole_lines(#[trigger] exposition_parts(metrics)[k]),
        exposition_parts(metrics).len() == 12,
{
    let prefixes = listed(metrics.prefixes());
    let parts = exposition_parts(metrics);
    lemma_headers_end();
    lemma_counter_lines(CounterKind::Requests, metrics, prefixes, Seq::empty());
    lemma_counter_lines(CounterKind::RateLimited, metrics, prefixes, Seq::empty());
    lemma_counter_lines(CounterKind::CircuitOpen, metrics, prefixes, Seq::empty());
    lemma_response_lines(metrics, listed(metrics.responses.dom()), Seq::empty());
    lemma_latency_lines(metrics, prefixes, Seq::empty(), Seq::empty());
    lemma_breaker_lines(metrics, prefixes, Seq::empty());
    let p11 = parts.take(11);
    let p10 = parts.take(10);
    let p9 = parts.take(9);
    let p8 = parts.take(8);
    let p7 = parts.take(7);
    let p6 = parts.take(6);
    let p5 = parts.take(5);
    let p4 = parts.take(4);
    let p3 = parts.take(3);
    let p2 = parts.take(2);
    let p1 = parts.take(1);
    assert(parts.drop_last() =~= p11);
    assert(p11.drop_last() =~= p10);
    assert(p10.drop_last() =~= p9);
    assert(p9.drop_last() =~= p8);
    assert(p8.drop_last() =~= p7);
    assert(p7.drop_last() =~= p6);
    assert(p6.drop_last() =~= p5);
    assert(p5.drop_last() =~= p4);
    assert(p4.drop_last() =~= p3);
    assert(p3.drop_last() =~= p2);
    assert(p2.drop_last() =~= p1);
    assert(p1.drop_last() =~= parts.take(0));
    assert(all_joined(parts.take(0)) =~= Seq::<char>::empty());
    assert(all_joined(p1) =~= parts[0]);
    assert(all_joined(p2) == parts[0] + parts[1]);
    assert(all_joined(p3) == parts[0] + parts[1] + parts[2]);
    assert(all_joined(p4) == parts[0] + parts[1] + parts[2] + parts[3]);
    assert(all_joined(p5) == parts[0] + parts[1] + parts[2] + parts[3] + parts[4]);
    assert(all_joined(p6) == parts[0] + parts[1] + parts[2] + parts[3] + parts[4] + parts[5]);
    assert(all_joined(p7) == all_joined(p6) + parts[6]);
    assert(all_joined(p8) == all_joined(p7) + parts[7]);
    assert(all_joined(p9) == all_joined(p8) + parts[8]);
    assert(all_joined(p10) == all_joined(p9) + parts[9]);
    assert(all_joined(p11) == all_joined(p10) + parts[10]);
    assert(all_joined(parts) == all_joined(p11) + parts[11]);
}

/// The exposition shows every number of the registry on a line of its own, in decimal: for
/// every prefix that it has anything on, the requests, the limiter's rejections and the
/// breaker's; for every class, the responses; the gauge of every breaker.
#[verifier::spinoff_prover]
#[verifier::rlimit(60)]
pub proof fn law_exposition_shows_every_counter(
    metrics: MetricsView,
    prefix: Seq<char>,
    class: Seq<char>,
)
    requires
        metrics.counters.dom().finite(),
        metrics.latencies.dom().finite(),
        metrics.responses.dom().finite(),
        metrics.breaker_state.dom().finite(),
    ensures
        metrics.counters.contains_key(prefix) || metrics.latencies.contains_key(prefix)
            || metrics.breaker_state.contains_key(prefix) ==> {
            &&& has_line(
                exposition(metrics),
                "ratewall_requests_total"@ + "{prefix=\""@ + prefix + "\"} "@ + decimal(
                    metrics.counters_of(prefix).requests_total as nat,
                ) + "\n"@,
            )
            &&& has_line(
                exposition(metrics),
                "ratewall_rate_limited_total"@ + "{prefix=\""@ + prefix + "\"} "@ + decimal(
                    metrics.counters_of(prefix).rate_limited_total as nat,
                ) + "\n"@,
            )
            &&& has_line(
                exposition(metrics),
                "ratewall_circuit_open_total"@ + "{prefix=\""@ + prefix + "\"} "@ + decimal(
                    metrics.counters_of(prefix).circuit_open_total as nat,
                ) + "\n"@,
            )
        },
        metrics.breaker_state.contains_key(prefix) ==> has_line(
            exposition(metrics),
            "ratewall_breaker_state"@ + "{prefix=\""@ + prefix + "\"} "@ + decimal(
                metrics.breaker_state[prefix] as nat,
            ) + "\n"@,
        ),
        !class.contains('|') && metrics.responses.contains_key(class + seq!['|'] + prefix)
            ==> has_line(
            exposition(metrics),
            "ratewall_responses_total{prefix=\""@ + prefix + "\",class=\""@ + class + "\"} "@
                + decimal(metrics.responses[class + seq!['|'] + prefix] as nat) + "\n"@,
        ),
{
    let prefixes = listed(metrics.prefixes());
    let parts = exposition_parts(metrics);
    law_finite_sets_are_listed(metrics.prefixes());
    law_finite_sets_are_listed(metrics.responses.dom());
    lemma_exposition_is_joined(metrics);
    if metrics.prefixes().contains(prefix) {
        assert(prefixes.contains(prefix));
        let c = metrics.counters_of(prefix);
        lemma_counter_lines(CounterKind::Requests, metrics, prefixes, prefix);
        lemma_counter_lines(CounterKind::RateLimited, metrics, prefixes, prefix);
        lemma_counter_lines(CounterKind::CircuitOpen, metrics, prefixes, prefix);
        lemma_breaker_lines(metrics, prefixes, prefix);
        lemma_line_of_a_part(
            parts,
            1,
            sample("ratewall_requests_total"@, prefix, decimal(c.requests_total as nat)),
        );
        lemma_line_of_a_part(
            parts,
            3,
            sample("ratewall_rate_limited_total"@, prefix, decimal(c.rate_limited_total as nat)),
        );
        lemma_line_of_a_part(
            parts,
            5,
            sample("ratewall_circuit_open_total"@, prefix, decimal(c.circuit_open_total as nat)),
        );
        lemma_line_of_a_part(
            parts,
            11,
            sample(
                "ratewall_breaker_state"@,
                prefix,
                decimal(metrics.breaker_state[prefix] as nat),
            ),
        );
    }
    let key = class + seq!['|'] + prefix;
    if !class.contains('|') && metrics.responses.contains_key(key) {
        reveal_strlit("|");
        assert("|"@ =~= seq!['|']);
        law_response_key_is_split_back(class, prefix);
        assert(response_key(class, prefix) == key);
        assert(listed(metrics.responses.dom()).contains(key));
        lemma_response_lines(metrics, listed(metrics.responses.dom()), key);
        lemma_line_of_a_part(parts, 7, response_line(key, metrics.responses[key]));
    }
}

/// The exposition shows every histogram of the registry: each bucket under its bound, the
/// total under the bound `+Inf` and once more as the count, and the sum of all latencies in
/// seconds, which reads as the sum to the nanosecond.
#[verifier::spinoff_prover]
#[verifier::rlimit(60)]
pub proof fn law_exposition_shows_every_histogram(
    metrics: MetricsView,
    prefix: Seq<char>,
    i: int,
)
    requires
        metrics.counters.dom().finite(),
        metrics.latencies.dom().finite(),
        metrics.breaker_state.dom().finite(),
        metrics.latencies.contains_key(prefix),
        0 <= i < LATENCY_BUCKETS@.len(),
    ensures
        ({
            let text = exposition(metrics);
            let histogram = metrics.latencies[prefix];
            let bucket = "ratewall_request_duration_seconds_bucket{prefix=\""@ + prefix
                + "\",le=\""@;
            let label = "{prefix=\""@ + prefix + "\"} "@;
            &&& exists|bound: Seq<char>, whole: Seq<char>, decimals: Seq<char>|
                #![trigger reads_as_nanos(bound, whole, decimals, LATENCY_BUCKETS@[i] as nat)]
                reads_as_nanos(bound, whole, decimals, LATENCY_BUCKETS@[i] as nat) && has_line(
                    text,
                    bucket + bound + "\"} "@ + decimal(histogram.counts[i] as nat) + "\n"@,
                )
            &&& has_line(
                text,
                bucket + "+Inf"@ + "\"} "@ + decimal(histogram.count as nat) + "\n"@,
            )
            &&& has_line(
                text,
                "ratewall_request_duration_seconds_count"@ + label + decimal(
                    histogram.count as nat,
                ) + "\n"@,
            )
            &&& exists|sum: Seq<char>, whole: Seq<char>, decimals: Seq<char>|
                #![trigger reads_as_nanos(sum, whole, decimals, histogram.sum_nanos as nat)]
                reads_as_nanos(sum, whole, decimals, histogram.sum_nanos as nat)
                    && decimals.len() == 9 && has_line(
                    text,
                    "ratewall_request_duration_seconds_sum"@ + label + sum + "\n"@,
                )
        }),
{
    let histogram = metrics.latencies[prefix];
    let bound = seconds(LATENCY_BUCKETS@[i] as nat);
    let sum = precise_seconds(histogram.sum_nanos as nat);
    let count = decimal(histogram.count as nat);
    assert(is_histogram_line(
        prefix,
        histogram,
        bucket_line(prefix, bound, histogram.counts[i]),
    ));
    lemma_exposition_has_line(metrics, prefix, bucket_line(prefix, bound, histogram.counts[i]));
    lemma_exposition_has_line(metrics, prefix, bucket_line(prefix, "+Inf"@, histogram.count));
    lemma_exposition_has_line(
        metrics,
        prefix,
        sample("ratewall_request_duration_seconds_sum"@, prefix, sum),
    );
    lemma_exposition_has_line(
        metrics,
        prefix,
        sample("ratewall_request_duration_seconds_count"@, prefix, count),
    );
    lemma_sample_by_label("ratewall_request_duration_seconds_sum"@, prefix, sum);
    lemma_sample_by_label("ratewall_request_duration_seconds_count"@, prefix, count);
    law_seconds_read_back(LATENCY_BUCKETS@[i] as nat);
    law_seconds_read_back(histogram.sum_nanos as nat);
}

#[verifier::spinoff_prover]
#[verifier::rlimit(30)]
proof fn lemma_exposition_has_line(metrics: MetricsView, prefix: Seq<char>, line: Seq<char>)
    requires
        metrics.counters.dom().finite(),
        metrics.latencies.dom().finite(),
        metrics.breaker_state.dom().finite(),
        metrics.latencies.contains_key(prefix),
        is_histogram_line(prefix, metrics.latencies[prefix], line),
    ensures
        has_line(exposition(metrics), line),
{
    let prefixes = listed(metrics.prefixes());
    let parts = exposition_parts(metrics);
    law_finite_sets_are_listed(metrics.prefixes());
    assert(prefixes.contains(prefix));
    lemma_latency_lines(metrics, prefixes, prefix, line);
    lemma_exposition_is_joined(metrics);
    lemma_line_of_a_part(parts, 9, line);
}

/// How many lines end in `text`.
pub open spec fn line_ends(text: Seq<char>) -> nat
    decreases text.len(),
{
    if text.len() == 0 {
        0
    } else {
        line_ends(text.drop_last()) + if text.last() == '\n' {
            1nat
        } else {
            0nat
        }
    }
}

proof fn lemma_line_ends_add(a: Seq<char>, b: Seq<char>)
    ensures
        line_ends(a + b) == line_ends(a) + line_ends(b),
    decreases b.len(),
{
    if b.len() == 0 {
        assert(a + b =~= a);
    } else {
        lemma_line_ends_add(a, b.drop_last());
        assert((a + b).drop_last() =~= a + b.drop_last());
    }
}

proof fn lemma_no_line_ends(text: Seq<char>)
    requires
        forall|i: int| 0 <= i < text.len() ==> #[trigger] text[i] != '\n',
    ensures
        line_ends(text) == 0,
    decreases text.len(),
{
    if text.len() > 0 {
        assert forall|i: int| 0 <= i < text.drop_last().len() implies #[trigger]
            text.drop_last()[i] != '\n' by {
            assert(text.drop_last()[i] == text[i]);
        }
        lemma_no_line_ends(text.drop_last());
        assert(text[text.len() - 1] != '\n');
    }
}

proof fn lemma_numbers_are_inline(n: nat)
    ensures
        line_ends(decimal(n)) == 0,
        line_ends(seconds(n)) == 0,
        line_ends(precise_seconds(n)) == 0,
{
    reveal_strlit(".");
    law_decimal_reads_back(n);
    lemma_no_line_ends(decimal(n));
    law_seconds_read_back(n);
    let (w, d) = choose|w: Seq<char>, d: Seq<char>| #[trigger]
        reads_as_nanos(seconds(n), w, d, n);
    assert forall|i: int| 0 <= i < seconds(n).len() implies #[trigger] seconds(n)[i] != '\n' by {
        if i < w.len() {
            assert(seconds(n)[i] == w[i]);
        } else if i > w.len() {
            assert(seconds(n)[i] == d[i - w.len() - 1]);
        }
    }
    lemma_no_line_ends(seconds(n));
    let (w, d) = choose|w: Seq<char>, d: Seq<char>| #[trigger]
        reads_as_nanos(precise_seconds(n), w, d, n) && d.len() == 9;
    assert forall|i: int| 0 <= i < precise_seconds(n).len() implies #[trigger] precise_seconds(
        n,
    )[i] != '\n' by {
        if i < w.len() {
            assert(precise_seconds(n)[i] == w[i]);
        } else if i > w.len() {
            assert(precise_seconds(n)[i] == d[i - w.len() - 1]);
        }
    }
    lemma_no_line_ends(precise_seconds(n));
}

proof fn lemma_line_break()
    ensures
        line_ends("\n"@) == 1,
{
    reveal_strlit("\n");
    assert("\n"@ =~= seq!['\n']);
    assert(seq!['\n'].drop_last() =~= Seq::<char>::empty());
    assert(line_ends(Seq::<char>::empty()) == 0);
}

proof fn lemma_sample_is_a_line(name: Seq<char>, prefix: Seq<char>, value: Seq<char>)
    requires
        line_ends(name) == 0,
        line_ends(prefix) == 0,
        line_ends(value) == 0,
    ensures
        line_ends(sample(name, prefix, value)) == 1,
{
    reveal_strlit("{prefix=\"");
    reveal_strlit("\"} ");
    lemma_no_line_ends("{prefix=\""@);
    lemma_no_line_ends("\"} "@);
    lemma_line_break();
    lemma_line_ends_add(name, "{prefix=\""@);
    lemma_line_ends_add(name + "{prefix=\""@, prefix);
    lemma_line_ends_add(name + "{prefix=\""@ + prefix, "\"} "@);
    lemma_line_ends_add(name + "{prefix=\""@ + prefix + "\"} "@, value);
    lemma_line_ends_add(name + "{prefix=\""@ + prefix + "\"} "@ + value, "\n"@);
}

proof fn lemma_bucket_is_a_line(prefix: Seq<char>, bound: Seq<char>, count: u64)
    requires
        line_ends(prefix) == 0,
        line_ends(bound) == 0,
    ensures
        line_ends(bucket_line(prefix, bound, count)) == 1,
{
    let a = "ratewall_request_duration_seconds_bucket{prefix=\""@;
    let b = "\",le=\""@;
    let c = "\"} "@;
    let d = decimal(count as nat);
    reveal_strlit("ratewall_request_duration_seconds_bucket{prefix=\"");
    reveal_strlit("\",le=\"");
    reveal_strlit("\"} ");
    lemma_no_line_ends(a);
    lemma_no_line_ends(b);
    lemma_no_line_ends(c);
    lemma_numbers_are_inline(count as nat);
    lemma_line_break();
    lemma_line_ends_add(a, prefix);
    lemma_line_ends_add(a + prefix, b);
    lemma_line_ends_add(a + prefix + b, bound);
    lemma_line_ends_add(a + prefix + b + bound, c);
    lemma_line_ends_add(a + prefix + b + bound + c, d);
    lemma_line_ends_add(a + prefix + b + bound + c + d, "\n"@);
}

proof fn lemma_response_is_a_line(key: Seq<char>, total: u64)
    requires
        !key.contains('\n'),
    ensures
        line_ends(response_line(key, total)) == 1,
{
    let (class, prefix) = split_response_key(key);
    let a = "ratewall_responses_total{prefix=\""@;
    let b = "\",class=\""@;
    let c = "\"} "@;
    let d = decimal(total as nat);
    reveal_strlit("ratewall_responses_total{prefix=\"");
    reveal_strlit("\",class=\"");
    reveal_strlit("\"} ");
    reveal_strlit("unknown");
    law_split_is_at_the_first(key, '|');
    assert forall|i: int| 0 <= i < key.len() implies #[trigger] key[i] != '\n' by {
        assert(key.contains(key[i]));
    }
    if key.contains('|') {
        assert forall|i: int| 0 <= i < class.len() implies #[trigger] class[i] != '\n' by {
            assert(class[i] == key[i]);
        }
        assert forall|i: int| 0 <= i < prefix.len() implies #[trigger] prefix[i] != '\n' by {
            assert(prefix[i] == key[class.len() + 1 + i]);
        }
    }
    lemma_no_line_ends(class);
    lemma_no_line_ends(prefix);
    lemma_no_line_ends(a);
    lemma_no_line_ends(b);
    lemma_no_line_ends(c);
    lemma_numbers_are_inline(total as nat);
    lemma_line_break();
    lemma_line_ends_add(a, prefix);
    lemma_line_ends_add(a + prefix, b);
    lemma_line_ends_add(a + prefix + b, class);
    lemma_line_ends_add(a + prefix + b + class, c);
    lemma_line_ends_add(a + prefix + b + class + c, d);
    lemma_line_ends_add(a + prefix + b + class + c + d, "\n"@);
}

proof fn lemma_names_are_inline()
    ensures
        line_ends("ratewall_requests_total"@) == 0,
        line_ends("ratewall_rate_limited_total"@) == 0,
        line_ends("ratewall_circuit_open_total"@) == 0,
        line_ends("ratewall_breaker_state"@) == 0,
        line_ends("ratewall_request_duration_seconds_sum"@) == 0,
        line_ends("ratewall_request_duration_seconds_count"@) == 0,
        line_ends("+Inf"@) == 0,
{
    reveal_strlit("ratewall_requests_total");
    reveal_strlit("ratewall_rate_limited_total");
    reveal_strlit("ratewall_circuit_open_total");
    reveal_strlit("ratewall_breaker_state");
    reveal_strlit("ratewall_request_duration_seconds_sum");
    reveal_strlit("ratewall_request_duration_seconds_count");
    reveal_strlit("+Inf");
    lemma_no_line_ends("ratewall_requests_total"@);
    lemma_no_line_ends("ratewall_rate_limited_total"@);
    lemma_no_line_ends("ratewall_circuit_open_total"@);
    lemma_no_line_ends("ratewall_breaker_state"@);
    lemma_no_line_ends("ratewall_request_duration_seconds_sum"@);
    lemma_no_line_ends("ratewall_request_duration_seconds_count"@);
    lemma_no_line_ends("+Inf"@);
}

/// None of these texts holds a line break.
pub open spec fn all_inline(texts: Seq<Seq<char>>) -> bool {
    forall|i: int| 0 <= i < texts.len() ==> !(#[trigger] texts[i]).contains('\n')
}

proof fn lemma_inline_parts(texts: Seq<Seq<char>>)
    requires
        all_inline(texts),
        texts.len() > 0,
    ensures
        all_inline(texts.drop_last()),
        !texts.last().contains('\n'),
        line_ends(texts.last()) == 0,
{
    let text = texts[texts.len() - 1];
    assert forall|i: int| 0 <= i < texts.drop_last().len() implies !(
    #[trigger] texts.drop_last()[i]).contains('\n') by {
        assert(texts.drop_last()[i] == texts[i]);
    }
    assert forall|i: int| 0 <= i < text.len() implies #[trigger] text[i] != '\n' by {
        assert(text.contains(text[i]));
    }
    lemma_no_line_ends(text);
}

/// How many of `keys` are in `set`.
spec fn how_many_in(keys: Seq<Seq<char>>, set: Set<Seq<char>>) -> nat
    decreases keys.len(),
{
    if keys.len() == 0 {
        0
    } else {
        how_many_in(keys.drop_last(), set) + if set.contains(keys.last()) {
            1nat
        } else {
            0nat
        }
    }
}

proof fn lemma_how_many_in(keys: Seq<Seq<char>>, set: Set<Seq<char>>)
    requires
        set.finite(),
        keys.no_duplicates(),
    ensures
        how_many_in(keys, set) == keys.to_set().intersect(set).len(),
    decreases keys.len(),
{
    if keys.len() == 0 {
        assert(keys.to_set().intersect(set) =~= Set::<Seq<char>>::empty());
    } else {
        let before = keys.drop_last();
        let last = keys.last();
        assert(before.no_duplicates());
        lemma_how_many_in(before, set);
        let a = before.to_set().intersect(set);
        let b = keys.to_set().intersect(set);
        assert(!before.contains(last)) by {
            if before.contains(last) {
                let i = before.index_of(last);
                assert(keys[i] == keys[keys.len() - 1]);
            }
        }
        assert forall|k: Seq<char>| keys.to_set().contains(k) <==> before.to_set().contains(k)
            || k == last by {
            if keys.contains(k) && k != last {
                let i = keys.index_of(k);
                assert(before[i] == k);
            }
            if before.contains(k) {
                let i = before.index_of(k);
                assert(keys[i] == k);
            }
            assert(keys[keys.len() - 1] == last);
        }
        if set.contains(last) {
            assert(b =~= a.insert(last));
        } else {
            assert(b =~= a);
        }
    }
}

proof fn lemma_how_many_of_subset(keys: Seq<Seq<char>>, all: Set<Seq<char>>, set: Set<Seq<char>>)
    requires
        keys == listed(all),
        all.finite(),
        set.subset_of(all),
    ensures
        how_many_in(keys, set) == set.len(),
{
    law_finite_sets_are_listed(all);
    vstd::set_lib::lemma_set_subset_finite(all, set);
    lemma_how_many_in(keys, set);
    assert forall|k: Seq<char>| keys.to_set().intersect(set).contains(k) <==> set.contains(k) by {
        assert(keys.contains(k) <==> all.contains(k));
    }
    assert(keys.to_set().intersect(set) =~= set);
}

proof fn lemma_counter_line_ends(
    kind: CounterKind,
    metrics: MetricsView,
    prefixes: Seq<Seq<char>>,
)
    requires
        all_inline(prefixes),
    ensures
        line_ends(counter_lines(kind, metrics, prefixes)) == prefixes.len(),
    decreases prefixes.len(),
{
    if prefixes.len() > 0 {
        lemma_inline_parts(prefixes);
        lemma_counter_line_ends(kind, metrics, prefixes.drop_last());
        let value = counter_value(kind, metrics.counters_of(prefixes.last())) as nat;
        lemma_names_are_inline();
        lemma_numbers_are_inline(value);
        lemma_sample_is_a_line(counter_name(kind), prefixes.last(), decimal(value));
        lemma_line_ends_add(
            counter_lines(kind, metrics, prefixes.drop_last()),
            sample(counter_name(kind), prefixes.last(), decimal(value)),
        );
    }
}

proof fn lemma_response_line_ends(metrics: MetricsView, keys: Seq<Seq<char>>)
    requires
        all_inline(keys),
    ensures
        line_ends(response_lines(metrics, keys)) == keys.len(),
    decreases keys.len(),
{
    if keys.len() > 0 {
        lemma_inline_parts(keys);
        lemma_response_line_ends(metrics, keys.drop_last());
        lemma_response_is_a_line(keys.last(), metrics.responses[keys.last()]);
        lemma_line_ends_add(
            response_lines(metrics, keys.drop_last()),
            response_line(keys.last(), metrics.responses[keys.last()]),
        );
    }
}

proof fn lemma_bucket_line_ends(prefix: Seq<char>, histogram: HistogramView, n: nat)
    requires
        line_ends(prefix) == 0,
        n <= LATENCY_BUCKETS@.len(),
    ensures
        line_ends(bucket_lines(prefix, histogram, n)) == n,
    decreases n,
{
    if n > 0 {
        lemma_bucket_line_ends(prefix, histogram, (n - 1) as nat);
        let bound = seconds(LATENCY_BUCKETS@[n - 1] as nat);
        lemma_numbers_are_inline(LATENCY_BUCKETS@[n - 1] as nat);
        lemma_bucket_is_a_line(prefix, bound, histogram.counts[n - 1]);
        lemma_line_ends_add(
            bucket_lines(prefix, histogram, (n - 1) as nat),
            bucket_line(prefix, bound, histogram.counts[n - 1]),
        );
    }
}

proof fn lemma_histogram_line_ends(prefix: Seq<char>, histogram: HistogramView)
    requires
        line_ends(prefix) == 0,
    ensures
        line_ends(histogram_lines(prefix, histogram)) == LATENCY_BUCKETS@.len() + 3,
{
    let n = LATENCY_BUCKETS@.len();
    let buckets = bucket_lines(prefix, histogram, n);
    let all = bucket_line(prefix, "+Inf"@, histogram.count);
    let sum = sample(
        "ratewall_request_duration_seconds_sum"@,
        prefix,
        precise_seconds(histogram.sum_nanos as nat),
    );
    let count = sample(
        "ratewall_request_duration_seconds_count"@,
        prefix,
        decimal(histogram.count as nat),
    );
    lemma_names_are_inline();
    lemma_numbers_are_inline(histogram.sum_nanos as nat);
    lemma_numbers_are_inline(histogram.count as nat);
    lemma_bucket_line_ends(prefix, histogram, n);
    lemma_bucket_is_a_line(prefix, "+Inf"@, histogram.count);
    lemma_sample_is_a_line(
        "ratewall_request_duration_seconds_sum"@,
        prefix,
        precise_seconds(histogram.sum_nanos as nat),
    );
    lemma_sample_is_a_line(
        "ratewall_request_duration_seconds_count"@,
        prefix,
        decimal(histogram.count as nat),
    );
    lemma_line_ends_add(buckets, all);
    lemma_line_ends_add(buckets + all, sum);
    lemma_line_ends_add(buckets + all + sum, count);
}

proof fn lemma_latency_line_ends(metrics: MetricsView, prefixes: Seq<Seq<char>>)
    requires
        all_inline(prefixes),
    ensures
        line_ends(latency_lines(metrics, prefixes)) == (LATENCY_BUCKETS@.len() + 3) * how_many_in(
            prefixes,
            metrics.latencies.dom(),
        ),
    decreases prefixes.len(),
{
    let each = LATENCY_BUCKETS@.len() + 3;
    if prefixes.len() > 0 {
        lemma_inline_parts(prefixes);
        let last = prefixes.last();
        let before = how_many_in(prefixes.drop_last(), metrics.latencies.dom());
        lemma_latency_line_ends(metrics, prefixes.drop_last());
        assert(each * (before + 1) == each * before + each) by (nonlinear_arith);
        if metrics.latencies.contains_key(last) {
            lemma_histogram_line_ends(last, metrics.latencies[last]);
            lemma_line_ends_add(
                latency_lines(metrics, prefixes.drop_last()),
                histogram_lines(last, metrics.latencies[last]),
            );
        }
    } else {
        assert(each * 0 == 0) by (nonlinear_arith);
    }
}

proof fn lemma_breaker_line_ends(metrics: MetricsView, prefixes: Seq<Seq<char>>)
    requires
        all_inline(prefixes),
    ensures
        line_ends(breaker_lines(metrics, prefixes)) == how_many_in(
            prefixes,
            metrics.breaker_state.dom(),
        ),
    decreases prefixes.len(),
{
    if prefixes.len() > 0 {
        lemma_inline_parts(prefixes);
        let last = prefixes.last();
        lemma_breaker_line_ends(metrics, prefixes.drop_last());
        if metrics.breaker_state.contains_key(last) {
            let value = decimal(metrics.breaker_state[last] as nat);
            lemma_names_are_inline();
            lemma_numbers_are_inline(metrics.breaker_state[last] as nat);
            lemma_sample_is_a_line("ratewall_breaker_state"@, last, value);
            lemma_line_ends_add(
                breaker_lines(metrics, prefixes.drop_last()),
                sample("ratewall_breaker_state"@, last, value),
            );
        }
    }
}

/// How many lines the parts of the exposition have that stand there in any case.
spec fn heading_lines() -> nat {
    line_ends(counter_header(CounterKind::Requests)) + line_ends(
        counter_header(CounterKind::RateLimited),
    ) + line_ends(counter_header(CounterKind::CircuitOpen)) + line_ends(
        "# HELP ratewall_responses_total Backend responses by status class.\n# TYPE ratewall_responses_total counter\n"@,
    ) + line_ends(
        "# HELP ratewall_request_duration_seconds Proxied request latency per route prefix.\n# TYPE ratewall_request_duration_seconds histogram\n"@,
    ) + line_ends(
        "# HELP ratewall_breaker_state Circuit breaker state per backend (0 closed, 1 half-open, 2 open).\n# TYPE ratewall_breaker_state gauge\n"@,
    )
}

#[verifier::spinoff_prover]
#[verifier::rlimit(30)]
proof fn lemma_exposition_line_ends(metrics: MetricsView)
    ensures
        ({
            let prefixes = listed(metrics.prefixes());
            line_ends(exposition(metrics)) == heading_lines() + line_ends(
                counter_lines(CounterKind::Requests, metrics, prefixes),
            ) + line_ends(counter_lines(CounterKind::RateLimited, metrics, prefixes)) + line_ends(
                counter_lines(CounterKind::CircuitOpen, metrics, prefixes),
            ) + line_ends(
                response_lines(metrics, listed(metrics.responses.dom())),
            ) + line_ends(latency_lines(metrics, prefixes)) + line_ends(
                breaker_lines(metrics, prefixes),
            )
        }),
{
    let prefixes = listed(metrics.prefixes());
    let t1 = counter_header(CounterKind::Requests);
    let t2 = t1 + counter_lines(CounterKind::Requests, metrics, prefixes);
    let t3 = t2 + counter_header(CounterKind::RateLimited);
    let t4 = t3 + counter_lines(CounterKind::RateLimited, metrics, prefixes);
    let t5 = t4 + counter_header(CounterKind::CircuitOpen);
    let t6 = t5 + counter_lines(CounterKind::CircuitOpen, metrics, prefixes);
    let t7 = t6
        + "# HELP ratewall_responses_total Backend responses by status class.\n# TYPE ratewall_responses_total counter\n"@;
    let t8 = t7 + response_lines(metrics, listed(metrics.responses.dom()));
    let t9 = t8
        + "# HELP ratewall_request_duration_seconds Proxied request latency per route prefix.\n# TYPE ratewall_request_duration_seconds histogram\n"@;
    let t10 = t9 + latency_lines(metrics, prefixes);
    let t11 = t10
        + "# HELP ratewall_breaker_state Circuit breaker state per backend (0 closed, 1 half-open, 2 open).\n# TYPE ratewall_breaker_state gauge\n"@;
    lemma_line_ends_add(t1, counter_lines(CounterKind::Requests, metrics, prefixes));
    lemma_line_ends_add(t2, counter_header(CounterKind::RateLimited));
    lemma_line_ends_add(t3, counter_lines(CounterKind::RateLimited, metrics, prefixes));
    lemma_line_ends_add(t4, counter_header(CounterKind::CircuitOpen));
    lemma_line_ends_add(t5, counter_lines(CounterKind::CircuitOpen, metrics, prefixes));
    lemma_line_ends_add(
        t6,
        "# HELP ratewall_responses_total Backend responses by status class.\n# TYPE ratewall_responses_total counter\n"@,
    );
    lemma_line_ends_add(t7, response_lines(metrics, listed(metrics.responses.dom())));
    lemma_line_ends_add(
        t8,
        "# HELP ratewall_request_duration_seconds Proxied request latency per route prefix.\n# TYPE ratewall_request_duration_seconds histogram\n"@,
    );
    lemma_line_ends_add(t9, latency_lines(metrics, prefixes));
    lemma_line_ends_add(
        t10,
        "# HELP ratewall_breaker_state Circuit breaker state per backend (0 closed, 1 half-open, 2 open).\n# TYPE ratewall_breaker_state gauge\n"@,
    );
    lemma_line_ends_add(t11, breaker_lines(metrics, prefixes));
    assert(exposition(metrics) == t11 + breaker_lines(metrics, prefixes));
}

/// The exposition shows nothing else: it has the lines of an empty registry, three for each
/// prefix that it has anything on, one for each class of responses to a prefix, three more
/// than there are buckets for each histogram, and one for each breaker.
#[verifier::spinoff_prover]
#[verifier::rlimit(30)]
pub proof fn law_exposition_shows_nothing_else(metrics: MetricsView)
    requires
        metrics.counters.dom().finite(),
        metrics.latencies.dom().finite(),
        metrics.responses.dom().finite(),
        metrics.breaker_state.dom().finite(),
        forall|prefix: Seq<char>| #[trigger]
            metrics.prefixes().contains(prefix) ==> !prefix.contains('\n'),
        forall|key: Seq<char>| #[trigger]
            metrics.responses.contains_key(key) ==> !key.contains('\n'),
    ensures
        line_ends(exposition(metrics)) == line_ends(exposition(MetricsView::empty())) + 3
            * metrics.counters.dom().union(metrics.latencies.dom()).union(
            metrics.breaker_state.dom(),
        ).len() + metrics.responses.dom().len() + (LATENCY_BUCKETS@.len() + 3)
            * metrics.latencies.dom().len() + metrics.breaker_state.dom().len(),
{
    let prefixes = listed(metrics.prefixes());
    let keys = listed(metrics.responses.dom());
    law_finite_sets_are_listed(metrics.prefixes());
    law_finite_sets_are_listed(metrics.responses.dom());
    assert(all_inline(prefixes)) by {
        assert forall|i: int| 0 <= i < prefixes.len() implies !(#[trigger] prefixes[i]).contains(
            '\n',
        ) by {
            assert(prefixes.contains(prefixes[i]));
        }
    }
    assert(all_inline(keys)) by {
        assert forall|i: int| 0 <= i < keys.len() implies !(#[trigger] keys[i]).contains('\n') by {
            assert(keys.contains(keys[i]));
            assert(metrics.responses.contains_key(keys[i]));
        }
    }
    lemma_exposition_line_ends(metrics);
    lemma_counter_line_ends(CounterKind::Requests, metrics, prefixes);
    lemma_counter_line_ends(CounterKind::RateLimited, metrics, prefixes);
    lemma_counter_line_ends(CounterKind::CircuitOpen, metrics, prefixes);
    lemma_response_line_ends(metrics, keys);
    lemma_latency_line_ends(metrics, prefixes);
    lemma_breaker_line_ends(metrics, prefixes);
    lemma_how_many_of_subset(prefixes, metrics.prefixes(), metrics.latencies.dom());
    lemma_how_many_of_subset(prefixes, metrics.prefixes(), metrics.breaker_state.dom());
    let none = MetricsView::empty();
    assert(none.prefixes() =~= Set::<Seq<char>>::empty());
    assert(none.responses.dom() =~= Set::<Seq<char>>::empty());
    law_finite_sets_are_listed(none.prefixes());
    lemma_exposition_line_ends(none);
    assert(line_ends(Seq::<char>::empty()) == 0);
}

proof fn lemma_sample_by_label(name: Seq<char>, prefix: Seq<char>, value: Seq<char>)
    ensures
        sample(name, prefix, value) == name + ("{prefix=\""@ + prefix + "\"} "@) + value + "\n"@,
{
    assert(sample(name, prefix, value) =~= name + ("{prefix=\""@ + prefix + "\"} "@) + value
        + "\n"@);
}

/// `text` is `x`, `a`, `y`, `b` and `z`, one behind the other, each but the last ending
/// where a line ends.
pub open spec fn stands_before(
    text: Seq<char>,
    x: Seq<char>,
    a: Seq<char>,
    y: Seq<char>,
    b: Seq<char>,
    z: Seq<char>,
) -> bool {
    &&& text == x + a + y + b + z
    &&& is_whole_lines(x)
    &&& is_whole_lines(a)
    &&& is_whole_lines(y)
}

/// `a` stands in `text`, from the start of a line on, and `b` does so behind it.
pub open spec fn in_order(text: Seq<char>, a: Seq<char>, b: Seq<char>) -> bool {
    exists|x: Seq<char>, y: Seq<char>, z: Seq<char>| stands_before(text, x, a, y, b, z)
}

/// `text` is `x`, `part` and `y`, one behind the other, and lines end where `part` starts
/// and where `y` ends.
spec fn is_between(text: Seq<char>, x: Seq<char>, part: Seq<char>, y: Seq<char>) -> bool {
    &&& text == x + part + y
    &&& is_whole_lines(x)
    &&& is_whole_lines(y)
}

/// Every part is empty or ends where a line ends.
spec fn all_whole(parts: Seq<Seq<char>>) -> bool {
    forall|k: int| 0 <= k < parts.len() ==> is_whole_lines(#[trigger] parts[k])
}

proof fn lemma_all_whole(parts: Seq<Seq<char>>)
    requires
        all_whole(parts),
        parts.len() > 0,
    ensures
        all_whole(parts.drop_last()),
        is_whole_lines(parts.last()),
        is_whole_lines(all_joined(parts.drop_last())),
{
    let before = parts.drop_last();
    assert forall|k: int| 0 <= k < before.len() implies is_whole_lines(#[trigger] before[k]) by {
        assert(before[k] == parts[k]);
    }
    assert(is_whole_lines(parts[parts.len() - 1]));
    lemma_line_of_a_part(before, 0, Seq::empty());
}

proof fn lemma_more_behind(x: Seq<char>, part: Seq<char>, y: Seq<char>, more: Seq<char>)
    ensures
        (x + part + y) + more == x + part + (y + more),
{
    assert((x + part + y) + more =~= x + part + (y + more));
}

proof fn lemma_nothing_behind(text: Seq<char>)
    ensures
        text + Seq::<char>::empty() == text,
{
    assert(text + Seq::<char>::empty() =~= text);
}

proof fn lemma_five_between(
    p: Seq<char>,
    x: Seq<char>,
    a: Seq<char>,
    y: Seq<char>,
    b: Seq<char>,
    z: Seq<char>,
    q: Seq<char>,
)
    ensures
        p + (x + a + y + b + z) + q == (p + x) + a + y + b + (z + q),
{
    assert(p + (x + a + y + b + z) =~= (p + x + a + y + b) + z);
    lemma_more_behind(p + x + a + y + b, z, Seq::empty(), q);
    assert(((p + x + a + y + b) + z) + q =~= (p + x + a + y + b) + (z + q));
}

proof fn lemma_part_found(parts: Seq<Seq<char>>, i: int)
    requires
        all_whole(parts),
        0 <= i < parts.len(),
    ensures
        exists|x: Seq<char>, y: Seq<char>| is_between(all_joined(parts), x, parts[i], y),
    decreases parts.len(),
{
    let before = parts.drop_last();
    let last = parts.last();
    lemma_all_whole(parts);
    if i < parts.len() - 1 {
        assert(before[i] == parts[i]);
        lemma_part_found(before, i);
        let (x, y) = choose|x: Seq<char>, y: Seq<char>|
            is_between(all_joined(before), x, before[i], y);
        lemma_joined_whole(y, last);
        lemma_more_behind(x, parts[i], y, last);
        assert(is_between(all_joined(parts), x, parts[i], y + last));
    } else {
        let x = all_joined(before);
        lemma_nothing_behind(x + parts[i]);
        assert(is_between(all_joined(parts), x, parts[i], Seq::empty()));
    }
}

proof fn lemma_parts_in_order(parts: Seq<Seq<char>>, i: int, j: int)
    requires
        all_whole(parts),
        0 <= i < j < parts.len(),
    ensures
        in_order(all_joined(parts), parts[i], parts[j]),
    decreases parts.len(),
{
    let before = parts.drop_last();
    let last = parts.last();
    lemma_all_whole(parts);
    assert(before[i] == parts[i]);
    assert(is_whole_lines(parts[i]));
    if j < parts.len() - 1 {
        assert(before[j] == parts[j]);
        lemma_parts_in_order(before, i, j);
        let (x, y, z) = choose|x: Seq<char>, y: Seq<char>, z: Seq<char>|
            stands_before(all_joined(before), x, before[i], y, before[j], z);
        lemma_more_behind(x + parts[i] + y, parts[j], z, last);
        assert(stands_before(all_joined(parts), x, parts[i], y, parts[j], z + last));
    } else {
        lemma_part_found(before, i);
        let (x, y) = choose|x: Seq<char>, y: Seq<char>|
            is_between(all_joined(before), x, before[i], y);
        lemma_nothing_behind(x + parts[i] + y + parts[j]);
        assert(stands_before(all_joined(parts), x, parts[i], y, parts[j], Seq::empty()));
    }
}

proof fn lemma_order_within_a_part(
    parts: Seq<Seq<char>>,
    i: int,
    a: Seq<char>,
    b: Seq<char>,
)
    requires
        all_whole(parts),
        0 <= i < parts.len(),
        in_order(parts[i], a, b),
    ensures
        in_order(all_joined(parts), a, b),
{
    lemma_part_found(parts, i);
    let (p, q) = choose|x: Seq<char>, y: Seq<char>|
        is_between(all_joined(parts), x, parts[i], y);
    let (x, y, z) = choose|x: Seq<char>, y: Seq<char>, z: Seq<char>|
        stands_before(parts[i], x, a, y, b, z);
    lemma_joined_whole(p, x);
    lemma_five_between(p, x, a, y, b, z, q);
    assert(stands_before(all_joined(parts), p + x, a, y, b, z + q));
}

proof fn lemma_counters_joined(
    kind: CounterKind,
    metrics: MetricsView,
    prefixes: Seq<Seq<char>>,
)
    ensures
        counter_lines(kind, metrics, prefixes) == all_joined(
            prefixes.map_values(
                |p: Seq<char>|
                    sample(
                        counter_name(kind),
                        p,
                        decimal(counter_value(kind, metrics.counters_of(p)) as nat),
                    ),
            ),
        ),
    decreases prefixes.len(),
{
    let f = |p: Seq<char>|
        sample(
            counter_name(kind),
            p,
            decimal(counter_value(kind, metrics.counters_of(p)) as nat),
        );
    if prefixes.len() > 0 {
        lemma_counters_joined(kind, metrics, prefixes.drop_last());
        assert(prefixes.map_values(f).drop_last() =~= prefixes.drop_last().map_values(f));
        assert(prefixes.map_values(f).last() == f(prefixes.last()));
    }
}

proof fn lemma_responses_joined(metrics: MetricsView, keys: Seq<Seq<char>>)
    ensures
        response_lines(metrics, keys) == all_joined(
            keys.map_values(|key: Seq<char>| response_line(key, metrics.responses[key])),
        ),
    decreases keys.len(),
{
    let f = |key: Seq<char>| response_line(key, metrics.responses[key]);
    if keys.len() > 0 {
        lemma_responses_joined(metrics, keys.drop_last());
        assert(keys.map_values(f).drop_last() =~= keys.drop_last().map_values(f));
        assert(keys.map_values(f).last() == f(keys.last()));
    }
}

/// The exposition is in a fixed order, so that two readings can be compared: within a
/// family the line of a prefix stands before the lines of the prefixes that come after it
/// in the order of texts, and so it is with the keys of the responses.
#[verifier::spinoff_prover]
#[verifier::rlimit(30)]
pub proof fn law_exposition_is_in_order(
    metrics: MetricsView,
    kind: CounterKind,
    a: Seq<char>,
    b: Seq<char>,
)
    requires
        metrics.counters.dom().finite(),
        metrics.latencies.dom().finite(),
        metrics.responses.dom().finite(),
        metrics.breaker_state.dom().finite(),
        precedes(a, b),
    ensures
        metrics.prefixes().contains(a) && metrics.prefixes().contains(b) ==> in_order(
            exposition(metrics),
            sample(
                counter_name(kind),
                a,
                decimal(counter_value(kind, metrics.counters_of(a)) as nat),
            ),
            sample(
                counter_name(kind),
                b,
                decimal(counter_value(kind, metrics.counters_of(b)) as nat),
            ),
        ),
        metrics.responses.contains_key(a) && metrics.responses.contains_key(b) ==> in_order(
            exposition(metrics),
            response_line(a, metrics.responses[a]),
            response_line(b, metrics.responses[b]),
        ),
{
    let parts = exposition_parts(metrics);
    lemma_exposition_is_joined(metrics);
    if metrics.prefixes().contains(a) && metrics.prefixes().contains(b) {
        let keys = listed(metrics.prefixes());
        law_finite_sets_are_listed(metrics.prefixes());
        lemma_listed_in_order(keys, metrics.prefixes(), a, b);
        let f = |p: Seq<char>|
            sample(
                counter_name(kind),
                p,
                decimal(counter_value(kind, metrics.counters_of(p)) as nat),
            );
        let lines = keys.map_values(f);
        lemma_counters_joined(kind, metrics, keys);
        assert(all_whole(parts));
        assert forall|k: int| 0 <= k < lines.len() implies is_whole_lines(#[trigger] lines[k]) by {
            lemma_samples_end(
                counter_name(kind),
                keys[k],
                decimal(counter_value(kind, metrics.counters_of(keys[k])) as nat),
            );
        }
        lemma_parts_in_order(lines, keys.index_of(a), keys.index_of(b));
        let at: int = match kind {
            CounterKind::Requests => 1,
            CounterKind::RateLimited => 3,
            CounterKind::CircuitOpen => 5,
        };
        assert(parts[at] == counter_lines(kind, metrics, keys));
        lemma_order_within_a_part(parts, at, f(a), f(b));
    }
    if metrics.responses.contains_key(a) && metrics.responses.contains_key(b) {
        let keys = listed(metrics.responses.dom());
        law_finite_sets_are_listed(metrics.responses.dom());
        lemma_listed_in_order(keys, metrics.responses.dom(), a, b);
        let f = |key: Seq<char>| response_line(key, metrics.responses[key]);
        let lines = keys.map_values(f);
        lemma_responses_joined(metrics, keys);
        reveal_strlit("\n");
        assert(all_whole(parts));
        assert forall|k: int| 0 <= k < lines.len() implies is_whole_lines(#[trigger] lines[k]) by {
            assert(lines[k] == response_line(keys[k], metrics.responses[keys[k]]));
            assert(lines[k].last() == "\n"@.last());
        }
        lemma_parts_in_order(lines, keys.index_of(a), keys.index_of(b));
        lemma_order_within_a_part(parts, 7, f(a), f(b));
    }
}

proof fn lemma_listed_in_order(
    keys: Seq<Seq<char>>,
    set: Set<Seq<char>>,
    a: Seq<char>,
    b: Seq<char>,
)
    requires
        lists(keys, set),
        set.contains(a),
        set.contains(b),
        precedes(a, b),
    ensures
        0 <= keys.index_of(a) < keys.index_of(b) < keys.len(),
        keys[keys.index_of(a)] == a,
        keys[keys.index_of(b)] == b,
{
    assert(keys.contains(a));
    assert(keys.contains(b));
    let i = keys.index_of(a);
    let j = keys.index_of(b);
    lemma_precedes_irreflexive(a);
    if j < i {
        assert(precedes(keys[j], keys[i]));
        lemma_precedes_transitive(a, b, a);
    }
}

/// The counter of each kind goes by its own name and shows its own value.
pub proof fn law_counters_go_by_their_names(counters: PrefixCounters)
    ensures
        counter_name(CounterKind::Requests) == "ratewall_requests_total"@,
        counter_name(CounterKind::RateLimited) == "ratewall_rate_limited_total"@,
        counter_name(CounterKind::CircuitOpen) == "ratewall_circuit_open_total"@,
        counter_value(CounterKind::Requests, counters) == counters.requests_total,
        counter_value(CounterKind::RateLimited, counters) == counters.rate_limited_total,
        counter_value(CounterKind::CircuitOpen, counters) == counters.circuit_open_total,
{
}

/// The bounds of the buckets go up, from half a millisecond to two and a half seconds.
pub proof fn law_bounds_go_up(i: int, j: int)
    requires
        0 <= i < j < LATENCY_BUCKETS@.len(),
    ensures
        LATENCY_BUCKETS@[i] < LATENCY_BUCKETS@[j],
        LATENCY_BUCKETS@[0] == 500_000,
        LATENCY_BUCKETS@[LATENCY_BUCKETS@.len() - 1] == 2_500_000_000,
{
}

} // verus!
