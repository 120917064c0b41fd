//! Rate limiting: fixed-window counters in a shared store, fail-open.
//!
//! If the store cannot be reached, the request passes uncounted, and that is
//! counted. Requests are keyed by the verified subject, and by the client's
//! address where there is none.
//!
//! A fixed window is deliberately simple: across the edge between two windows up
//! to twice the limit can pass within one window length.

use vstd::prelude::*;
use vstd::string::*;

use crate::text::{
    debug_text, decimal, is_digits, law_decimal_reads_back, law_split_is_at_the_first,
    lemma_decimal_is_digits, lemma_decimal_is_injective, lemma_split_once, number_of,
    optional_string, optional_text, split_once,
};
use crate::text::{quoted, write_decimal};
use crate::time::{Duration, NANOS_PER_SEC};

verus! {

/// Outcome of a rate-limit check.
#[derive(Debug, Clone, Copy, PartialEq, Eq, Structural)]
pub enum Decision {
    /// The request is within the limit.
    Allow,
    /// The request exceeds the limit of this window. Holds the seconds after which
    /// to try again.
    Limit(u64),
    /// The store could not be reached, or failed: the request passes uncounted.
    Open,
}

/// What the store answered to counting a request.
#[derive(Debug, Clone, Copy, PartialEq, Eq, Structural)]
pub enum CounterReply {
    /// How often the key has been counted in this window, this request included.
    Count(i64),
    /// The store could not be reached, or failed.
    Unavailable,
}

/// The count that the store is asked for: add one to the counter under `key`, which
/// expires after `expire_secs` seconds.
#[derive(Debug, Clone, PartialEq, Eq)]
pub struct CounterRequest {
    pub key: String,
    pub expire_secs: u64,
}

/// A limiter by its numbers: requests per key and window, the length of a window
/// in seconds, the namespace of its keys, and how many requests passed uncounted.
pub struct LimiterView {
    pub limit: nat,
    pub window_secs: nat,
    pub key_prefix: Seq<char>,
    pub fail_open: u64,
}

/// The counter of `key` in the window with this number.
pub open spec fn window_key(key_prefix: Seq<char>, key: Seq<char>, window: nat) -> Seq<char> {
    "rl"@ + key_prefix + ":"@ + key + ":"@ + decimal(window)
}

/// A window lasts a second at least.
pub open spec fn at_least_one(secs: nat) -> nat {
    if secs == 0 {
        1
    } else {
        secs
    }
}

impl LimiterView {
    /// A limiter that has seen nothing yet.
    pub open spec fn fresh(limit: u32, window: nat, key_prefix: Option<Seq<char>>) -> LimiterView {
        LimiterView {
            limit: limit as nat,
            window_secs: at_least_one(window / NANOS_PER_SEC as nat),
            key_prefix: match key_prefix {
                Some(prefix) => prefix,
                None => Seq::empty(),
            },
            fail_open: 0,
        }
    }

    /// The decision on a reply of the store. A count that ran over is over the
    /// limit.
    pub open spec fn decision(self, reply: CounterReply) -> Decision {
        match reply {
            CounterReply::Unavailable => Decision::Open,
            CounterReply::Count(count) => if count < 0 || count > self.limit {
                Decision::Limit(self.window_secs as u64)
            } else {
                Decision::Allow
            },
        }
    }

    /// The limiter after a reply of the store.
    pub open spec fn after(self, reply: CounterReply) -> LimiterView {
        match reply {
            CounterReply::Unavailable => LimiterView {
                fail_open: if self.fail_open == u64::MAX {
                    0
                } else {
                    (self.fail_open + 1) as u64
                },
                ..self
            },
            CounterReply::Count(_) => self,
        }
    }

    /// The number of the window that `now` lies in.
    pub open spec fn window_at(self, now: u64) -> nat {
        now as nat / self.window_secs
    }
}

/// A URL that may name a Unix socket: its scheme, what stands before the first colon, can
/// be `unix` or `redis+unix` only if there is an `x` in it.
pub open spec fn may_name_socket(url: Seq<char>) -> bool {
    match split_once(url, ':') {
        Some((scheme, _)) => scheme.contains('x') || scheme.contains('X'),
        None => false,
    }
}

/// Why there can be no connection pool for a URL, if so.
pub uninterp spec fn redis_url_refusal(url: Seq<char>) -> Option<Seq<char>>;

/// What an operator is told of a URL that was refused.
pub open spec fn connect_error(url: Seq<char>, reason: Seq<char>) -> Seq<char> {
    "invalid redis url "@ + debug_text(url) + ": "@ + reason
}

/// `Config::create_pool` of deadpool-redis, for the `Config::from_url` of `url`. It reads the
/// URL and makes a pool that connects when it is first used; here only the text of its
/// error is kept. Unless the URL may name a Unix socket, which not every platform has,
/// the outcome depends on the URL alone.
#[verifier::external_body]
fn refuse_redis_url(url: &str) -> (refusal: Option<String>)
    ensures
        !may_name_socket(url@) ==> redis_url_refusal(url@) == optional_string(refusal),
{
    deadpool_redis::Config::from_url(url).create_pool(
        Some(deadpool_redis::Runtime::Tokio1),
    ).err().map(|error| error.to_string())
}

/// Asking for a connection pool for `url` can be refused for this reason, or not be
/// refused.
pub closed spec fn pool_refusal(url: &str, refusal: Option<Seq<char>>) -> bool {
    exists|answer: Option<String>| #[trigger]
        call_ensures(refuse_redis_url, (url,), answer) && refusal == optional_string(answer)
}

/// Fixed-window limiter. One instance serves the whole gateway.
#[derive(Debug)]
pub struct RateLimiter {
    limit: u32,
    window: Duration,
    key_prefix: String,
    fail_open_count: u64,
}

impl View for RateLimiter {
    type V = LimiterView;

    closed spec fn view(&self) -> LimiterView {
        LimiterView {
            limit: self.limit as nat,
            window_secs: at_least_one(self.window@ / NANOS_PER_SEC as nat),
            key_prefix: self.key_prefix@,
            fail_open: self.fail_open_count,
        }
    }
}

impl RateLimiter {
    /// A limiter that allows `limit` requests per key and window. `key_prefix` is
    /// an optional namespace for its counters.
    pub fn new(limit: u32, window: Duration, key_prefix: Option<&str>) -> (limiter: Self)
        ensures
            limiter@ == LimiterView::fresh(limit, window@, optional_text(key_prefix)),
    {
        let key_prefix = match key_prefix {
            Some(prefix) => prefix.to_owned(),
            None => String::new(),
        };
        RateLimiter { limit, window, key_prefix, fail_open_count: 0 }
    }

    /// A limiter for the store at `redis_url`, unless that URL was refused for the
    /// reason in `refusal`.
    pub fn connect_unless(
        refusal: Option<String>,
        redis_url: &str,
        limit: u32,
        window: Duration,
        key_prefix: Option<&str>,
    ) -> (limiter: Result<Self, String>)
        ensures
            match (refusal, limiter) {
                (None, Ok(limiter)) => limiter@ == LimiterView::fresh(
                    limit,
                    window@,
                    optional_text(key_prefix),
                ),
                (Some(reason), Err(message)) => message@ == connect_error(redis_url@, reason@),
                _ => false,
            },
    {
        match refusal {
            None => Ok(RateLimiter::new(limit, window, key_prefix)),
            Some(reason) => Err(
                "invalid redis url ".to_owned().concat(quoted(redis_url).as_str()).concat(
                    ": ",
                ).concat(reason.as_str()),
            ),
        }
    }

    /// A limiter for the store at `redis_url`. Fails only if there can be no connection
    /// pool for that URL; a store that cannot be reached yet is no error. Whether a URL
    /// that may name a Unix socket is refused depends on the platform.
    pub fn connect(
        redis_url: &str,
        limit: u32,
        window: Duration,
        key_prefix: Option<&str>,
    ) -> (limiter: Result<Self, String>)
        ensures
            !may_name_socket(redis_url@) ==> match (redis_url_refusal(redis_url@), limiter) {
                (None, Ok(limiter)) => limiter@ == LimiterView::fresh(
                    limit,
                    window@,
                    optional_text(key_prefix),
                ),
                (Some(reason), Err(message)) => message@ == connect_error(redis_url@, reason),
                _ => false,
            },
            exists|refusal: Option<Seq<char>>| #[trigger]
                pool_refusal(redis_url, refusal) && match (refusal, limiter) {
                    (None, Ok(limiter)) => limiter@ == LimiterView::fresh(
                        limit,
                        window@,
                        optional_text(key_prefix),
                    ),
                    (Some(reason), Err(message)) => message@ == connect_error(redis_url@, reason),
                    _ => false,
                },
    {
        let refusal = refuse_redis_url(redis_url);
        assert(pool_refusal(redis_url, optional_string(refusal)));
        RateLimiter::connect_unless(refusal, redis_url, limit, window, key_prefix)
    }

    fn window_secs(&self) -> (secs: u64)
        ensures
            secs == self@.window_secs,
            secs > 0,
    {
        let secs: u64 = self.window.as_secs();
        if secs == 0 {
            1
        } else {
            secs
        }
    }

    /// What to ask the store for when a request under `key` comes in at `now_unix`:
    /// the counter of the current window, which goes away when it is of no more
    /// use.
    pub fn counter(&self, key: &str, now_unix: u64) -> (request: CounterRequest)
        ensures
            request.key@ == window_key(self@.key_prefix, key@, self@.window_at(now_unix)),
            request.expire_secs == self@.window_secs,
    {
        let secs: u64 = self.window_secs();
        let mut counter = "rl".to_owned();
        counter.append(self.key_prefix.as_str());
        counter.append(":");
        counter.append(key);
        counter.append(":");
        write_decimal(&mut counter, now_unix / secs);
        CounterRequest { key: counter, expire_secs: secs }
    }

    /// Decides on a request by what the store answered. Without an answer the
    /// request passes, and is counted as passed uncounted.
    pub fn decide(&mut self, reply: CounterReply) -> (decision: Decision)
        ensures
            decision == old(self)@.decision(reply),
            final(self)@ == old(self)@.after(reply),
    {
        match reply {
            CounterReply::Count(count) => {
                if count < 0 || count as u64 > self.limit as u64 {
                    Decision::Limit(self.window_secs())
                } else {
                    Decision::Allow
                }
            },
            CounterReply::Unavailable => {
                self.fail_open_count = self.fail_open_count.wrapping_add(1);
                Decision::Open
            },
        }
    }

    /// Requests that passed uncounted because the store was unavailable.
    pub fn fail_open_total(&self) -> (total: u64)
        ensures
            total == self@.fail_open,
    {
        self.fail_open_count
    }
}

/// The key that a request is limited under.
pub open spec fn limit_key_of(subject: Option<Seq<char>>, client_ip: Seq<char>) -> Seq<char> {
    match subject {
        Some(subject) => "sub:"@ + subject,
        None => "ip:"@ + client_ip,
    }
}

/// The key that a request is limited under: the verified subject, else the address
/// of the client.
pub fn limit_key(subject: Option<&str>, client_ip: &str) -> (key: String)
    ensures
        key@ == limit_key_of(optional_text(subject), client_ip@),
{
    match subject {
        Some(subject) => "sub:".to_owned().concat(subject),
        None => "ip:".to_owned().concat(client_ip),
    }
}

/// An unavailable store never rejects anybody.
pub proof fn law_unavailable_store_passes(limiter: LimiterView)
    ensures
        limiter.decision(CounterReply::Unavailable) == Decision::Open,
        limiter.fail_open < u64::MAX ==> limiter.after(CounterReply::Unavailable).fail_open
            == limiter.fail_open + 1,
{
}

/// Of the requests under one key in one window, the first ones pass, up to the
/// limit, and no others. A rejection names the window length as the time to wait.
pub proof fn law_limit_is_exact(limiter: LimiterView, nth: i64)
    requires
        nth >= 1,
    ensures
        nth <= limiter.limit ==> limiter.decision(CounterReply::Count(nth)) == Decision::Allow,
        nth > limiter.limit ==> limiter.decision(CounterReply::Count(nth)) == Decision::Limit(
            limiter.window_secs as u64,
        ),
{
}

/// A stretch of time no longer than a window touches two windows at most, so that
/// no more than twice the limit passes in it.
pub proof fn law_window_length_spans_two_windows(limiter: LimiterView, start: u64, end: u64)
    requires
        limiter.window_secs > 0,
        start <= end < start + limiter.window_secs,
    ensures
        limiter.window_at(start) <= limiter.window_at(end) <= limiter.window_at(start) + 1,
{
    let w = limiter.window_secs as int;
    let a = start as int;
    let b = end as int;
    assert(a / w <= b / w <= a / w + 1) by (nonlinear_arith)
        requires
            w > 0,
            a <= b < a + w,
    ;
}

/// A subject and an address are never limited under the same key, and neither are
/// two subjects or two addresses.
pub proof fn law_limit_keys_are_distinct(
    a: Option<Seq<char>>,
    a_ip: Seq<char>,
    b: Option<Seq<char>>,
    b_ip: Seq<char>,
)
    requires
        limit_key_of(a, a_ip) == limit_key_of(b, b_ip),
    ensures
        a == b,
        a is None ==> a_ip == b_ip,
{
    reveal_strlit("sub:");
    reveal_strlit("ip:");
    let key = limit_key_of(a, a_ip);
    match (a, b) {
        (Some(x), Some(y)) => {
            assert(key.skip(4) =~= x);
            assert(key.skip(4) =~= y);
        },
        (None, None) => {
            assert(key.skip(3) =~= a_ip);
            assert(key.skip(3) =~= b_ip);
        },
        (Some(_), None) => {
            assert(key[0] == 's');
            assert(key[0] == 'i');
        },
        (None, Some(_)) => {
            assert(key[0] == 's');
            assert(key[0] == 'i');
        },
    }
}

/// Two counters of a limiter are the same only for the same key in the same window.
pub proof fn law_counters_are_distinct(
    key_prefix: Seq<char>,
    a: Seq<char>,
    a_window: nat,
    b: Seq<char>,
    b_window: nat,
)
    requires
        window_key(key_prefix, a, a_window) == window_key(key_prefix, b, b_window),
    ensures
        a == b,
        a_window == b_window,
{
    reveal_strlit(":");
    let counter = window_key(key_prefix, a, a_window);
    let start = "rl"@ + key_prefix + ":"@;
    let x = decimal(a_window);
    let y = decimal(b_window);
    lemma_decimal_is_digits(a_window);
    lemma_decimal_is_digits(b_window);
    assert(counter == start + a + ":"@ + x);
    assert(counter == start + b + ":"@ + y);
    assert(counter[counter.len() - x.len() - 1] == ':');
    assert(counter[counter.len() - y.len() - 1] == ':');
    if x.len() < y.len() {
        assert(counter[counter.len() - x.len() - 1] == y[y.len() - x.len() - 1]);
        assert('0' <= y[y.len() - x.len() - 1] <= '9');
    } else if y.len() < x.len() {
        assert(counter[counter.len() - y.len() - 1] == x[x.len() - y.len() - 1]);
        assert('0' <= x[x.len() - y.len() - 1] <= '9');
    }
    assert(counter.skip(counter.len() - x.len()) =~= x);
    assert(counter.skip(counter.len() - y.len()) =~= y);
    lemma_decimal_is_injective(a_window, b_window);
    assert(counter.subrange(start.len() as int, counter.len() - x.len() - 1) =~= a);
    assert(counter.subrange(start.len() as int, counter.len() - y.len() - 1) =~= b);
}

/// A new limiter keeps its limit and its namespace as they are given. Its window is as many
/// whole seconds as there are in the given length, and one second if there are none.
pub proof fn law_new_limiters_keep_their_settings(
    limit: u32,
    window: nat,
    key_prefix: Option<Seq<char>>,
)
    ensures
        ({
            let limiter = LimiterView::fresh(limit, window, key_prefix);
            &&& limiter.limit == limit
            &&& limiter.window_secs >= 1
            &&& window >= 1_000_000_000 ==> limiter.window_secs * 1_000_000_000 <= window
                < (limiter.window_secs + 1) * 1_000_000_000
            &&& window < 1_000_000_000 ==> limiter.window_secs == 1
            &&& key_prefix is Some ==> limiter.key_prefix == key_prefix->0
            &&& key_prefix is None ==> limiter.key_prefix.len() == 0
            &&& limiter.fail_open == 0
        }),
{
}

/// Windows follow one another without a gap, for every window length: a moment lies in the
/// window that has begun by then and has not ended yet.
pub proof fn law_windows_follow_one_another(limiter: LimiterView, now: u64)
    requires
        limiter.window_secs > 0,
    ensures
        limiter.window_at(now) * limiter.window_secs <= now,
        now < (limiter.window_at(now) + 1) * limiter.window_secs,
{
    let w = limiter.window_secs as int;
    let n = now as int;
    assert((n / w) * w <= n < (n / w + 1) * w) by (nonlinear_arith)
        requires
            w > 0,
            n >= 0,
    ;
}

/// A new window has a fresh budget: requests under one key that come in a window length
/// apart or more are counted under different counters.
pub proof fn law_budget_is_renewed(
    limiter: LimiterView,
    key: Seq<char>,
    earlier: u64,
    later: u64,
)
    requires
        limiter.window_secs > 0,
        earlier + limiter.window_secs <= later,
    ensures
        limiter.window_at(earlier) < limiter.window_at(later),
        window_key(limiter.key_prefix, key, limiter.window_at(earlier)) != window_key(
            limiter.key_prefix,
            key,
            limiter.window_at(later),
        ),
{
    law_windows_follow_one_another(limiter, earlier);
    law_windows_follow_one_another(limiter, later);
    let w = limiter.window_secs as int;
    let a = limiter.window_at(earlier) as int;
    let b = limiter.window_at(later) as int;
    let t = earlier as int;
    let u = later as int;
    assert(a < b) by (nonlinear_arith)
        requires
            w > 0,
            a * w <= t,
            u < (b + 1) * w,
            t + w <= u,
    ;
    if window_key(limiter.key_prefix, key, limiter.window_at(earlier)) == window_key(
        limiter.key_prefix,
        key,
        limiter.window_at(later),
    ) {
        law_counters_are_distinct(
            limiter.key_prefix,
            key,
            limiter.window_at(earlier),
            key,
            limiter.window_at(later),
        );
    }
}

/// Within one window there is one budget: requests under one key that come in between the
/// begin of a window and its end are counted under one counter.
pub proof fn law_budget_is_shared_within_a_window(
    limiter: LimiterView,
    key: Seq<char>,
    window: nat,
    a: u64,
    b: u64,
)
    requires
        limiter.window_secs > 0,
        window * limiter.window_secs <= a,
        a < (window + 1) * limiter.window_secs,
        window * limiter.window_secs <= b,
        b < (window + 1) * limiter.window_secs,
    ensures
        limiter.window_at(a) == window,
        limiter.window_at(b) == window,
        window_key(limiter.key_prefix, key, limiter.window_at(a)) == window_key(
            limiter.key_prefix,
            key,
            limiter.window_at(b),
        ),
{
    lemma_window_of(limiter, window, a);
    lemma_window_of(limiter, window, b);
}

proof fn lemma_window_of(limiter: LimiterView, window: nat, now: u64)
    requires
        limiter.window_secs > 0,
        window * limiter.window_secs <= now,
        now < (window + 1) * limiter.window_secs,
    ensures
        limiter.window_at(now) == window,
{
    law_windows_follow_one_another(limiter, now);
    let w = limiter.window_secs as int;
    let n = limiter.window_at(now) as int;
    let k = window as int;
    let t = now as int;
    assert(n == k) by (nonlinear_arith)
        requires
            w > 0,
            n * w <= t,
            t < (n + 1) * w,
            k * w <= t,
            t < (k + 1) * w,
    ;
}

/// The name of a counter: the letters `rl` and the namespace, the key, and the number of
/// the window in decimal, with colons in between.
pub proof fn law_counters_are_named(key_prefix: Seq<char>, key: Seq<char>, window: nat)
    ensures
        exists|digits: Seq<char>|
            {
                &&& window_key(key_prefix, key, window) == seq!['r', 'l'] + key_prefix + seq![':']
                    + key + seq![':'] + digits
                &&& #[trigger] is_digits(digits)
                &&& digits.len() > 0
                &&& number_of(digits) == window
            },
{
    reveal_strlit("rl");
    reveal_strlit(":");
    law_decimal_reads_back(window);
    assert("rl"@ =~= seq!['r', 'l']);
    assert(":"@ =~= seq![':']);
    let digits = decimal(window);
    assert(window_key(key_prefix, key, window) == seq!['r', 'l'] + key_prefix + seq![':'] + key
        + seq![':'] + digits);
}

/// A request is limited under its subject, character for character, behind `sub:`, and only
/// without a subject under the address, behind `ip:`.
pub proof fn law_limit_keys_name_the_subject(subject: Option<Seq<char>>, client_ip: Seq<char>)
    ensures
        subject is Some ==> limit_key_of(subject, client_ip) == seq!['s', 'u', 'b', ':']
            + subject->0,
        subject is None ==> limit_key_of(subject, client_ip) == seq!['i', 'p', ':'] + client_ip,
{
    reveal_strlit("sub:");
    reveal_strlit("ip:");
    assert("sub:"@ =~= seq!['s', 'u', 'b', ':']);
    assert("ip:"@ =~= seq!['i', 'p', ':']);
}

/// Every count within the limit passes, and every other is limited, whatever the limit: a
/// count that ran over its range is no small one. Nothing but an unavailable store changes
/// the limiter, and that only in the number of requests that passed uncounted.
pub proof fn law_counts_decide(limiter: LimiterView, count: i64)
    ensures
        0 <= count <= limiter.limit <==> limiter.decision(CounterReply::Count(count))
            == Decision::Allow,
        !(0 <= count <= limiter.limit) ==> limiter.decision(CounterReply::Count(count))
            == Decision::Limit(limiter.window_secs as u64),
        limiter.after(CounterReply::Count(count)) == limiter,
        limiter.after(CounterReply::Unavailable).limit == limiter.limit,
        limiter.after(CounterReply::Unavailable).window_secs == limiter.window_secs,
        limiter.after(CounterReply::Unavailable).key_prefix == limiter.key_prefix,
        limiter.after(CounterReply::Unavailable).fail_open == (limiter.fail_open + 1)
            % 0x1_0000_0000_0000_0000,
{
}

/// A refused URL is told to the operator in full, quoted, with the reason behind it.
pub proof fn law_refused_urls_are_named(url: Seq<char>, reason: Seq<char>)
    ensures
        connect_error(url, reason) == "invalid redis url "@ + debug_text(url) + seq![':', ' ']
            + reason,
{
    reveal_strlit(": ");
    assert(": "@ =~= seq![':', ' ']);
}

/// Whether a URL is refused, and why, is what asking for a pool for it answered.
proof fn law_refusals_come_from_the_pool(
    url: &str,
    refusal: Option<Seq<char>>,
    answer: Option<String>,
)
    ensures
        call_ensures(refuse_redis_url, (url,), answer) ==> pool_refusal(
            url,
            optional_string(answer),
        ),
        pool_refusal(url, refusal) ==> exists|given: Option<String>| #[trigger]
            call_ensures(refuse_redis_url, (url,), given) && refusal == optional_string(given),
{
}

/// A URL may name a Unix socket only if there is an `x` in its scheme, whatever stands
/// behind that; one without a scheme names none.
pub proof fn law_plain_urls_name_no_socket(scheme: Seq<char>, rest: Seq<char>, text: Seq<char>)
    requires
        !scheme.contains(':'),
        !text.contains(':'),
    ensures
        may_name_socket(scheme + seq![':'] + rest) <==> scheme.contains('x') || scheme.contains(
            'X',
        ),
        !may_name_socket(text),
{
    lemma_split_once(scheme, ':', rest);
    assert(scheme + seq![':'] + rest =~= scheme.push(':') + rest);
    law_split_is_at_the_first(text, ':');
}

} // verus!
