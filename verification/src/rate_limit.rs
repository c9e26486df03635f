//! Rate limiting: per-organization and per-endpoint limits, enforced by a
//! token bucket (bursts) and a sliding window (overall rate).
//!
//! Times are milliseconds on the clock of `crate::clock`. Tokens are counted
//! in millionths of a token, and a refill rate in thousandths of a token per
//! second (16.67 tokens a second is a rate of 16_670), so that a refill over
//! whole milliseconds is exact: a rate of `r` adds `r` millionths of a token
//! per millisecond.

use vstd::prelude::*;
use crate::text::u64_to_text;

verus! {

/// Millionths of a token in one token.
pub const TOKEN: u128 = 1_000_000;

/// Rate limit configuration.
#[derive(Debug, Clone, Copy)]
pub struct RateLimitConfig {
    /// Maximum requests per window.
    pub max_requests: u64,
    /// Window duration, in milliseconds.
    pub window: u64,
    /// Burst capacity (for the token bucket), in tokens.
    pub burst_capacity: u64,
    /// Refill rate, in thousandths of a token per second.
    pub refill_rate: u64,
}

impl Default for RateLimitConfig {
    /// The default: 1000 requests a minute, bursts of 100, 16.67 tokens a second.
    fn default() -> (res: Self)
        ensures
            res == (RateLimitConfig { max_requests: 1000, window: 60_000, burst_capacity: 100, refill_rate: 16_670 }),
    {
        RateLimitConfig { max_requests: 1000, window: 60_000, burst_capacity: 100, refill_rate: 16_670 }
    }
}

impl RateLimitConfig {

    /// A config for high-traffic endpoints.
    pub fn high_traffic() -> (res: Self)
        ensures
            res == (RateLimitConfig { max_requests: 10_000, window: 60_000, burst_capacity: 500, refill_rate: 166_670 }),
    {
        RateLimitConfig { max_requests: 10_000, window: 60_000, burst_capacity: 500, refill_rate: 166_670 }
    }

    /// A config for low-traffic or expensive endpoints.
    pub fn low_traffic() -> (res: Self)
        ensures
            res == (RateLimitConfig { max_requests: 100, window: 60_000, burst_capacity: 10, refill_rate: 1_670 }),
    {
        RateLimitConfig { max_requests: 100, window: 60_000, burst_capacity: 10, refill_rate: 1_670 }
    }

    /// A strict config for sensitive endpoints.
    pub fn strict() -> (res: Self)
        ensures
            res == (RateLimitConfig { max_requests: 10, window: 60_000, burst_capacity: 3, refill_rate: 170 }),
    {
        RateLimitConfig { max_requests: 10, window: 60_000, burst_capacity: 3, refill_rate: 170 }
    }
}

/// Result of a rate limit check.
#[derive(Debug, Clone, Copy)]
pub struct RateLimitResult {
    /// Whether the request is allowed.
    pub allowed: bool,
    /// Current number of remaining requests.
    pub remaining: u64,
    /// When the rate limit resets.
    pub reset_at: u64,
    /// Retry after this many milliseconds (if not allowed).
    pub retry_after: Option<u64>,
}

/// `a - b`, or zero where `b` is the larger.
pub open spec fn saturating_diff(a: int, b: int) -> int {
    if a >= b { a - b } else { 0 }
}

/// `a + b`, capped at `u64::MAX`.
pub open spec fn capped_sum(a: int, b: int) -> int {
    if a + b > u64::MAX { u64::MAX as int } else { a + b }
}

/// The response headers of a check result, read at `now`: the remaining
/// requests, the whole seconds left until the reset time (zero once it has
/// passed), and the whole seconds to wait when there is a wait.
pub open spec fn header_values(r: RateLimitResult, now: u64) -> Seq<(Seq<char>, Seq<char>)> {
    let base = seq![
        ("X-RateLimit-Remaining"@, crate::text::decimal_text(r.remaining as nat)),
        ("X-RateLimit-Reset"@, crate::text::decimal_text((saturating_diff(r.reset_at as int, now as int) / 1000) as nat)),
    ];
    match r.retry_after {
        Some(w) => base.push(("Retry-After"@, crate::text::decimal_text((w / 1000) as nat))),
        None => base,
    }
}

impl RateLimitResult {
    /// The rate limit response headers at `now`.
    pub fn headers_at(&self, now: u64) -> (res: Vec<(&'static str, String)>)
        ensures
            res@.map_values(|h: (&'static str, String)| (h.0@, h.1@)) == header_values(*self, now),
    {
        let mut headers: Vec<(&'static str, String)> = Vec::new();
        headers.push(("X-RateLimit-Remaining", u64_to_text(self.remaining)));
        headers.push(("X-RateLimit-Reset", u64_to_text(self.reset_at.saturating_sub(now) / 1000)));
        if let Some(retry_after) = self.retry_after {
            headers.push(("Retry-After", u64_to_text(retry_after / 1000)));
        }
        proof {
            let v = header_values(*self, now);
            assert(headers@.map_values(|h: (&'static str, String)| (h.0@, h.1@)) =~= v);
        }
        headers
    }

    /// The rate limit response headers now.
    pub fn headers(&self) -> (res: Vec<(&'static str, String)>)
        ensures
            exists|now: u64| res@.map_values(|h: (&'static str, String)| (h.0@, h.1@)) == #[trigger] header_values(*self, now),
    {
        self.headers_at(crate::clock::now_millis())
    }
}

/// The tokens of a bucket holding `tokens`, last refilled at `last`, after
/// refilling at `now`: the elapsed milliseconds times the rate, up to the capacity.
pub open spec fn refilled_tokens(tokens: int, last: int, capacity: int, rate: int, now: int) -> int {
    let added = saturating_diff(now, last) * rate;
    if tokens + added >= capacity { capacity } else { tokens + added }
}

/// Whole milliseconds, rounded up, until a bucket holding `tokens` has `need`.
pub open spec fn wait_for(tokens: int, need: int, rate: int) -> int {
    if tokens >= need { 0 } else { (need - tokens + rate - 1) / rate }
}

/// Token bucket for burst protection.
#[derive(Debug)]
pub struct TokenBucket {
    tokens: u128,
    last_refill: u64,
    capacity: u128,
    refill_rate: u64,
}

impl TokenBucket {
    /// The tokens held, in millionths.
    pub closed spec fn tokens_view(&self) -> int {
        self.tokens as int
    }

    /// When the bucket was last refilled.
    pub closed spec fn last_refill_view(&self) -> int {
        self.last_refill as int
    }

    /// The capacity, in millionths of a token.
    pub closed spec fn capacity_view(&self) -> int {
        self.capacity as int
    }

    /// The refill rate, in millionths of a token per millisecond.
    pub closed spec fn rate_view(&self) -> int {
        self.refill_rate as int
    }

    /// Whether the bucket holds no more than its capacity, which is a whole
    /// number of tokens.
    pub open spec fn wf(&self) -> bool {
        &&& 0 <= self.tokens_view() <= self.capacity_view()
        &&& self.capacity_view() <= u64::MAX * TOKEN
    }

    /// The tokens after refilling at `now`.
    pub open spec fn refilled(&self, now: u64) -> int {
        refilled_tokens(self.tokens_view(), self.last_refill_view(), self.capacity_view(), self.rate_view(), now as int)
    }

    /// A full bucket of `capacity` tokens that refills `refill_rate`
    /// thousandths of a token a second, created at `now`.
    pub fn new_at(capacity: u64, refill_rate: u64, now: u64) -> (res: Self)
        ensures
            res.wf(),
            res.tokens_view() == capacity * TOKEN,
            res.capacity_view() == capacity * TOKEN,
            res.last_refill_view() == now,
            res.rate_view() == refill_rate,
    {
        proof {
            assert(capacity * TOKEN <= u64::MAX * TOKEN) by (nonlinear_arith)
                requires capacity <= u64::MAX;
        }
        let cap: u128 = (capacity as u128) * TOKEN;
        TokenBucket { tokens: cap, last_refill: now, capacity: cap, refill_rate }
    }

    /// A full bucket created now.
    pub fn new(capacity: u64, refill_rate: u64) -> (res: Self)
        ensures
            res.wf(),
            res.tokens_view() == capacity * TOKEN,
            res.capacity_view() == capacity * TOKEN,
            res.rate_view() == refill_rate,
    {
        Self::new_at(capacity, refill_rate, crate::clock::now_millis())
    }

    /// Adds what the rate has produced since the last refill, up to the capacity.
    pub fn refill(&mut self, now: u64)
        requires
            old(self).wf(),
        ensures
            final(self).wf(),
            final(self).tokens_view() == old(self).refilled(now),
            final(self).last_refill_view() == now,
            final(self).capacity_view() == old(self).capacity_view(),
            final(self).rate_view() == old(self).rate_view(),
    {
        let elapsed: u64 = now.saturating_sub(self.last_refill);
        proof {
            assert(elapsed * self.refill_rate <= u64::MAX * u64::MAX) by (nonlinear_arith)
                requires elapsed <= u64::MAX, self.refill_rate <= u64::MAX;
        }
        let added: u128 = (elapsed as u128) * (self.refill_rate as u128);
        if added >= self.capacity - self.tokens {
            self.tokens = self.capacity;
        } else {
            self.tokens = self.tokens + added;
        }
        self.last_refill = now;
    }

    /// Refills at `now`, then takes `tokens` tokens if the bucket holds them.
    pub fn try_consume(&mut self, tokens: u64, now: u64) -> (res: bool)
        requires
            old(self).wf(),
        ensures
            final(self).wf(),
            res == (old(self).refilled(now) >= tokens * TOKEN),
            final(self).tokens_view() == if res { old(self).refilled(now) - tokens * TOKEN } else { old(self).refilled(now) },
            final(self).last_refill_view() == now,
            final(self).capacity_view() == old(self).capacity_view(),
            final(self).rate_view() == old(self).rate_view(),
    {
        self.refill(now);
        proof {
            assert(tokens * TOKEN <= u64::MAX * TOKEN) by (nonlinear_arith)
                requires tokens <= u64::MAX;
        }
        let need: u128 = (tokens as u128) * TOKEN;
        if self.tokens >= need {
            self.tokens = self.tokens - need;
            true
        } else {
            false
        }
    }

    /// Milliseconds until the bucket holds `tokens` tokens, rounded up; zero
    /// when it holds them. A bucket that never refills cannot wait.
    pub fn time_until_available(&self, tokens: u64) -> (res: u64)
        requires
            self.wf(),
            self.tokens_view() >= tokens * TOKEN || self.rate_view() > 0,
        ensures
            res == capped_sum(wait_for(self.tokens_view(), tokens * TOKEN, self.rate_view()), 0),
    {
        proof {
            assert(tokens * TOKEN <= u64::MAX * TOKEN) by (nonlinear_arith)
                requires tokens <= u64::MAX;
        }
        let need: u128 = (tokens as u128) * TOKEN;
        if self.tokens >= need {
            0
        } else {
            let rate = self.refill_rate as u128;
            let missing: u128 = need - self.tokens;
            let wait: u128 = (missing + rate - 1) / rate;
            if wait > u64::MAX as u128 {
                u64::MAX
            } else {
                wait as u64
            }
        }
    }

    /// Gives back one token taken by a request that was then refused.
    fn refund_one(&mut self)
        requires
            old(self).wf(),
            old(self).tokens_view() + TOKEN <= old(self).capacity_view(),
        ensures
            final(self).wf(),
            final(self).tokens_view() == old(self).tokens_view() + TOKEN,
            final(self).last_refill_view() == old(self).last_refill_view(),
            final(self).capacity_view() == old(self).capacity_view(),
            final(self).rate_view() == old(self).rate_view(),
    {
        self.tokens = self.tokens + TOKEN;
    }
}

/// Whether a request recorded at `time` still counts at `now` in a window
/// of `window` milliseconds: it is less than a window old.
pub open spec fn in_window(time: u64, window: u64, now: u64) -> bool {
    time + window > now
}

/// The recorded requests that still count at `now`, in their order.
pub open spec fn recent(s: Seq<(u64, u64)>, window: u64, now: u64) -> Seq<(u64, u64)>
    decreases s.len(),
{
    if s.len() == 0 {
        s
    } else {
        let rest = recent(s.drop_last(), window, now);
        if in_window(s[s.len() - 1].0, window, now) { rest.push(s[s.len() - 1]) } else { rest }
    }
}

/// The sum of the counts of recorded requests.
pub open spec fn total(s: Seq<(u64, u64)>) -> int
    decreases s.len(),
{
    if s.len() == 0 { 0 } else { total(s.drop_last()) + s[s.len() - 1].1 }
}

/// What `recent` keeps.
pub proof fn lemma_recent(s: Seq<(u64, u64)>, window: u64, now: u64)
    ensures
        recent(s, window, now).len() <= s.len(),
        forall|i: int| 0 <= i < recent(s, window, now).len() ==> s.contains(#[trigger] recent(s, window, now)[i])
            && in_window(recent(s, window, now)[i].0, window, now),
    decreases s.len(),
{
    if s.len() > 0 {
        lemma_recent(s.drop_last(), window, now);
        let r = recent(s.drop_last(), window, now);
        assert forall|i: int| 0 <= i < r.len() implies s.contains(#[trigger] r[i]) by {
            assert(s.drop_last().contains(r[i]));
            let j = choose|j: int| 0 <= j < s.drop_last().len() && s.drop_last()[j] == r[i];
            assert(s[j] == r[i]);
        }
        assert(s.contains(s[s.len() - 1]));
    }
}

/// Taking the recent requests twice at the same time changes nothing.
pub proof fn lemma_recent_idempotent(s: Seq<(u64, u64)>, window: u64, now: u64)
    ensures
        recent(recent(s, window, now), window, now) == recent(s, window, now),
    decreases s.len(),
{
    if s.len() > 0 {
        lemma_recent_idempotent(s.drop_last(), window, now);
        let r = recent(s.drop_last(), window, now);
        if in_window(s[s.len() - 1].0, window, now) {
            assert(r.push(s[s.len() - 1]).drop_last() =~= r);
        }
    }
}

/// When every count is one, the total is the number of requests.
pub proof fn lemma_total_units(s: Seq<(u64, u64)>)
    requires
        forall|i: int| 0 <= i < s.len() ==> (#[trigger] s[i]).1 == 1,
    ensures
        total(s) == s.len(),
    decreases s.len(),
{
    if s.len() > 0 {
        let d = s.drop_last();
        assert forall|i: int| 0 <= i < d.len() implies (#[trigger] d[i]).1 == 1 by {
            assert(d[i] == s[i]);
        }
        lemma_total_units(d);
    }
}

/// Sliding window counter: the requests admitted in the last window.
#[derive(Debug)]
pub struct SlidingWindow {
    counts: Vec<(u64, u64)>,
    window: u64,
    max_requests: u64,
}

impl SlidingWindow {
    /// The recorded requests, oldest first: each time with its count.
    pub closed spec fn entries(&self) -> Seq<(u64, u64)> {
        self.counts@
    }

    /// The window length, in milliseconds.
    pub closed spec fn window_view(&self) -> u64 {
        self.window
    }

    /// The requests admitted per window.
    pub closed spec fn max_view(&self) -> u64 {
        self.max_requests
    }

    /// Whether each record counts one request and there are no more
    /// records than the window admits.
    pub open spec fn wf(&self) -> bool {
        &&& forall|i: int| 0 <= i < self.entries().len() ==> (#[trigger] self.entries()[i]).1 == 1
        &&& self.entries().len() <= self.max_view()
    }

    /// The number of requests that count at `now`.
    pub open spec fn recent_count(&self, now: u64) -> int {
        recent(self.entries(), self.window_view(), now).len() as int
    }

    pub fn new(window: u64, max_requests: u64) -> (res: Self)
        ensures
            res.wf(),
            res.entries() == Seq::<(u64, u64)>::empty(),
            res.window_view() == window,
            res.max_view() == max_requests,
    {
        SlidingWindow { counts: Vec::new(), window, max_requests }
    }

    /// Drops the requests that no longer count at `now`.
    pub fn cleanup_at(&mut self, now: u64)
        requires
            old(self).wf(),
        ensures
            final(self).wf(),
            final(self).entries() == recent(old(self).entries(), old(self).window_view(), now),
            final(self).window_view() == old(self).window_view(),
            final(self).max_view() == old(self).max_view(),
    {
        let mut kept: Vec<(u64, u64)> = Vec::new();
        let mut i: usize = 0;
        let ghost s = self.counts@;
        proof {
            lemma_recent(s, self.window, now);
        }
        while i < self.counts.len()
            invariant
                s == self.counts@,
                i <= s.len(),
                kept@ == recent(s.take(i as int), self.window, now),
            decreases s.len() - i,
        {
            let (time, n) = self.counts[i];
            proof {
                assert(s.take(i + 1).drop_last() =~= s.take(i as int));
            }
            if (time as u128) + (self.window as u128) > (now as u128) {
                kept.push((time, n));
            }
            i = i + 1;
        }
        assert(s.take(i as int) =~= s);
        proof {
            assert forall|j: int| 0 <= j < kept@.len() implies (#[trigger] kept@[j]).1 == 1 by {
                assert(s.contains(kept@[j]));
            }
        }
        self.counts = kept;
    }

    /// The number of requests that count at `now`, after dropping the others.
    pub fn count_at(&mut self, now: u64) -> (res: u64)
        requires
            old(self).wf(),
        ensures
            final(self).wf(),
            final(self).entries() == recent(old(self).entries(), old(self).window_view(), now),
            final(self).window_view() == old(self).window_view(),
            final(self).max_view() == old(self).max_view(),
            res == old(self).recent_count(now),
    {
        self.cleanup_at(now);
        let mut sum: u64 = 0;
        let mut i: usize = 0;
        proof {
            lemma_total_units(self.counts@);
        }
        while i < self.counts.len()
            invariant
                i <= self.counts@.len(),
                self.wf(),
                sum == total(self.counts@.take(i as int)),
                sum == i,
            decreases self.counts@.len() - i,
        {
            proof {
                assert(self.counts@.take(i + 1).drop_last() =~= self.counts@.take(i as int));
            }
            sum = sum + self.counts[i].1;
            i = i + 1;
        }
        sum
    }

    /// Records a request at `now` if fewer than the maximum count; says whether it did.
    pub fn try_increment_at(&mut self, now: u64) -> (res: bool)
        requires
            old(self).wf(),
        ensures
            final(self).wf(),
            res == (old(self).recent_count(now) < old(self).max_view()),
            final(self).entries() == if res {
                recent(old(self).entries(), old(self).window_view(), now).push((now, 1u64))
            } else {
                recent(old(self).entries(), old(self).window_view(), now)
            },
            final(self).window_view() == old(self).window_view(),
            final(self).max_view() == old(self).max_view(),
    {
        self.cleanup_at(now);
        proof {
            lemma_recent_idempotent(old(self).counts@, self.window, now);
        }
        let current = self.count_at(now);
        if current < self.max_requests {
            self.counts.push((now, 1));
            true
        } else {
            false
        }
    }

    /// How many more requests the window admits at `now`.
    pub fn remaining_at(&mut self, now: u64) -> (res: u64)
        requires
            old(self).wf(),
        ensures
            final(self).wf(),
            final(self).entries() == recent(old(self).entries(), old(self).window_view(), now),
            final(self).window_view() == old(self).window_view(),
            final(self).max_view() == old(self).max_view(),
            res == saturating_diff(old(self).max_view() as int, old(self).recent_count(now)),
    {
        let c = self.count_at(now);
        self.max_requests.saturating_sub(c)
    }

    /// When the window resets: a window after the oldest recorded request,
    /// or a window after `now` when none is recorded (capped at `u64::MAX`).
    pub fn reset_at_time(&self, now: u64) -> (res: u64)
        ensures
            res == if self.entries().len() > 0 {
                capped_sum(self.entries()[0].0 as int, self.window_view() as int)
            } else {
                capped_sum(now as int, self.window_view() as int)
            },
    {
        if self.counts.len() > 0 {
            self.counts[0].0.saturating_add(self.window)
        } else {
            now.saturating_add(self.window)
        }
    }

    /// Drops the requests that no longer count now.
    pub fn cleanup(&mut self)
        requires
            old(self).wf(),
        ensures
            final(self).wf(),
            exists|now: u64| final(self).entries() == #[trigger] recent(old(self).entries(), old(self).window_view(), now),
            final(self).window_view() == old(self).window_view(),
            final(self).max_view() == old(self).max_view(),
    {
        let now = crate::clock::now_millis();
        self.cleanup_at(now);
    }

    /// The number of requests that count now, after dropping the others.
    pub fn count(&mut self) -> (res: u64)
        requires
            old(self).wf(),
        ensures
            final(self).wf(),
            exists|now: u64| {
                &&& final(self).entries() == #[trigger] recent(old(self).entries(), old(self).window_view(), now)
                &&& res == old(self).recent_count(now)
            },
            final(self).window_view() == old(self).window_view(),
            final(self).max_view() == old(self).max_view(),
    {
        let now = crate::clock::now_millis();
        self.count_at(now)
    }

    /// Records a request now if fewer than the maximum count; says whether it did.
    pub fn try_increment(&mut self) -> (res: bool)
        requires
            old(self).wf(),
        ensures
            final(self).wf(),
            exists|now: u64| #![trigger recent(old(self).entries(), old(self).window_view(), now)] {
                &&& res == (old(self).recent_count(now) < old(self).max_view())
                &&& final(self).entries() == if res {
                    recent(old(self).entries(), old(self).window_view(), now).push((now, 1u64))
                } else {
                    recent(old(self).entries(), old(self).window_view(), now)
                }
            },
            final(self).window_view() == old(self).window_view(),
            final(self).max_view() == old(self).max_view(),
    {
        let now = crate::clock::now_millis();
        let res = self.try_increment_at(now);
        let ghost r = recent(old(self).entries(), old(self).window_view(), now);
        assert(res ==> self.entries() == r.push((now, 1u64)));
        res
    }

    /// How many more requests the window admits now.
    pub fn remaining(&mut self) -> (res: u64)
        requires
            old(self).wf(),
        ensures
            final(self).wf(),
            exists|now: u64| {
                &&& final(self).entries() == #[trigger] recent(old(self).entries(), old(self).window_view(), now)
                &&& res == saturating_diff(old(self).max_view() as int, old(self).recent_count(now))
            },
            final(self).window_view() == old(self).window_view(),
            final(self).max_view() == old(self).max_view(),
    {
        let now = crate::clock::now_millis();
        self.remaining_at(now)
    }

    /// When the window resets, as `reset_at_time` with the clock's reading now.
    pub fn reset_at(&self) -> (res: u64)
        ensures
            exists|now: u64| res == #[trigger] reset_time(self.entries(), self.window_view(), now),
    {
        let now = crate::clock::now_millis();
        let res = self.reset_at_time(now);
        assert(res == reset_time(self.entries(), self.window_view(), now));
        res
    }
}

/// When a window with `entries` resets, seen at `now`: a window after its
/// oldest request, or a window after `now` when it is empty (capped at `u64::MAX`).
pub open spec fn reset_time(entries: Seq<(u64, u64)>, window: u64, now: u64) -> int {
    if entries.len() > 0 {
        capped_sum(entries[0].0 as int, window as int)
    } else {
        capped_sum(now as int, window as int)
    }
}

/// The state of the limiter for one key, as values.
pub struct LimiterStateView {
    pub tokens: int,
    pub last_refill: int,
    pub capacity: int,
    pub rate: int,
    pub entries: Seq<(u64, u64)>,
    pub window: u64,
    pub max_requests: u64,
}

/// A fresh state for a key under `config`, created at `now`.
pub open spec fn fresh_state(config: RateLimitConfig, now: u64) -> LimiterStateView {
    LimiterStateView {
        tokens: config.burst_capacity * TOKEN,
        last_refill: now as int,
        capacity: config.burst_capacity * TOKEN,
        rate: config.refill_rate as int,
        entries: Seq::empty(),
        window: config.window,
        max_requests: config.max_requests,
    }
}

/// One rate limit check at `now`: the new state and the result.
///
/// The bucket is refilled and must give one token, else the request is
/// refused with the wait until a token is back. Then the window must admit
/// the request, else the token is given back and the request is refused
/// until the window resets. An admitted request is recorded in the window.
pub open spec fn check_step(s: LimiterStateView, now: u64) -> (LimiterStateView, RateLimitResult) {
    let refilled = refilled_tokens(s.tokens, s.last_refill, s.capacity, s.rate, now as int);
    let kept = recent(s.entries, s.window, now);
    if refilled < TOKEN {
        (
            LimiterStateView { tokens: refilled, last_refill: now as int, ..s },
            RateLimitResult {
                allowed: false,
                remaining: 0,
                reset_at: reset_time(s.entries, s.window, now) as u64,
                retry_after: Some(capped_sum(wait_for(refilled, TOKEN as int, s.rate), 0) as u64),
            },
        )
    } else if kept.len() >= s.max_requests {
        let reset = reset_time(kept, s.window, now);
        (
            LimiterStateView { tokens: refilled, last_refill: now as int, entries: kept, ..s },
            RateLimitResult {
                allowed: false,
                remaining: 0,
                reset_at: reset as u64,
                retry_after: Some(saturating_diff(reset, now as int) as u64),
            },
        )
    } else {
        let added = kept.push((now, 1u64));
        let after = recent(added, s.window, now);
        (
            LimiterStateView { tokens: refilled - TOKEN, last_refill: now as int, entries: after, ..s },
            RateLimitResult {
                allowed: true,
                remaining: saturating_diff(s.max_requests as int, after.len() as int) as u64,
                reset_at: reset_time(after, s.window, now) as u64,
                retry_after: None,
            },
        )
    }
}

/// Rate limiter state for a single key (org + endpoint).
#[derive(Debug)]
pub struct RateLimiterState {
    token_bucket: TokenBucket,
    sliding_window: SlidingWindow,
}

impl View for RateLimiterState {
    type V = LimiterStateView;

    closed spec fn view(&self) -> LimiterStateView {
        LimiterStateView {
            tokens: self.token_bucket.tokens_view(),
            last_refill: self.token_bucket.last_refill_view(),
            capacity: self.token_bucket.capacity_view(),
            rate: self.token_bucket.rate_view(),
            entries: self.sliding_window.entries(),
            window: self.sliding_window.window_view(),
            max_requests: self.sliding_window.max_view(),
        }
    }
}

/// Whether a key's state is consistent: tokens within the capacity, the
/// bucket refilling, and the window's records counting one request each,
/// no more of them than it admits.
pub open spec fn state_wf(s: LimiterStateView) -> bool {
    &&& 0 <= s.tokens <= s.capacity <= u64::MAX * TOKEN
    &&& s.rate > 0
    &&& forall|i: int| 0 <= i < s.entries.len() ==> (#[trigger] s.entries[i]).1 == 1
    &&& s.entries.len() <= s.max_requests
}

impl RateLimiterState {
    /// A fresh state for `config`, created at `now`.
    pub fn new_at(config: &RateLimitConfig, now: u64) -> (res: Self)
        requires
            config.refill_rate > 0,
        ensures
            state_wf(res@),
            res@ == fresh_state(*config, now),
    {
        RateLimiterState {
            token_bucket: TokenBucket::new_at(config.burst_capacity, config.refill_rate, now),
            sliding_window: SlidingWindow::new(config.window, config.max_requests),
        }
    }

    /// Checks one request at `now`.
    pub fn check(&mut self, now: u64) -> (res: RateLimitResult)
        requires
            state_wf(old(self)@),
        ensures
            state_wf(final(self)@),
            (final(self)@, res) == check_step(old(self)@, now),
    {
        if !self.token_bucket.try_consume(1, now) {
            let retry_after = self.token_bucket.time_until_available(1);
            return RateLimitResult {
                allowed: false,
                remaining: 0,
                reset_at: self.sliding_window.reset_at_time(now),
                retry_after: Some(retry_after),
            };
        }
        if !self.sliding_window.try_increment_at(now) {
            self.token_bucket.refund_one();
            let reset_at = self.sliding_window.reset_at_time(now);
            let retry_after = reset_at.saturating_sub(now);
            return RateLimitResult { allowed: false, remaining: 0, reset_at, retry_after: Some(retry_after) };
        }
        let remaining = self.sliding_window.remaining_at(now);
        RateLimitResult {
            allowed: true,
            remaining,
            reset_at: self.sliding_window.reset_at_time(now),
            retry_after: None,
        }
    }
}

/// Key for rate limiting: an organization, and optionally an endpoint.
#[derive(Debug, Clone, Hash)]
pub struct RateLimitKey {
    pub org_id: String,
    pub endpoint: Option<String>,
}

/// The view of an optional string.
pub open spec fn opt_text(o: Option<String>) -> Option<Seq<char>> {
    match o {
        Some(s) => Some(s@),
        None => None,
    }
}

impl View for RateLimitKey {
    type V = (Seq<char>, Option<Seq<char>>);

    open spec fn view(&self) -> (Seq<char>, Option<Seq<char>>) {
        (self.org_id@, opt_text(self.endpoint))
    }
}

/// Compares two optional strings by their text.
fn same_opt_text(a: &Option<String>, b: &Option<String>) -> (res: bool)
    ensures
        res == (opt_text(*a) == opt_text(*b)),
{
    match (a, b) {
        (Some(x), Some(y)) => *x == *y,
        (None, None) => true,
        _ => false,
    }
}

impl PartialEq for RateLimitKey {
    fn eq(&self, other: &Self) -> (res: bool) {
        self.org_id == other.org_id && same_opt_text(&self.endpoint, &other.endpoint)
    }
}

impl vstd::std_specs::cmp::PartialEqSpecImpl for RateLimitKey {
    open spec fn obeys_eq_spec() -> bool {
        true
    }

    open spec fn eq_spec(&self, other: &Self) -> bool {
        self@ == other@
    }
}

impl Eq for RateLimitKey {}

impl RateLimitKey {
    /// The key of an organization's global limit.
    pub fn org(org_id: String) -> (res: Self)
        ensures
            res@ == (org_id@, None::<Seq<char>>),
    {
        RateLimitKey { org_id, endpoint: None }
    }

    /// The key of an organization's limit on one endpoint.
    pub fn endpoint(org_id: String, endpoint: String) -> (res: Self)
        ensures
            res@ == (org_id@, Some(endpoint@)),
    {
        RateLimitKey { org_id, endpoint: Some(endpoint) }
    }
}

/// The config registered for endpoint `e`, if any.
pub open spec fn endpoint_config(configs: Seq<(Seq<char>, RateLimitConfig)>, e: Seq<char>) -> Option<RateLimitConfig>
    decreases configs.len(),
{
    if configs.len() == 0 {
        None
    } else if configs[configs.len() - 1].0 == e {
        Some(configs[configs.len() - 1].1)
    } else {
        endpoint_config(configs.drop_last(), e)
    }
}

/// The config that a new key's state is made with: its endpoint's, when one
/// is registered, else the default.
pub open spec fn config_for(
    default_config: RateLimitConfig,
    configs: Seq<(Seq<char>, RateLimitConfig)>,
    key: (Seq<char>, Option<Seq<char>>),
) -> RateLimitConfig {
    match key.1 {
        Some(e) => match endpoint_config(configs, e) {
            Some(c) => c,
            None => default_config,
        },
        None => default_config,
    }
}

/// The position of `key`'s state, if it has one.
pub open spec fn key_index(
    states: Seq<((Seq<char>, Option<Seq<char>>), LimiterStateView)>,
    key: (Seq<char>, Option<Seq<char>>),
) -> Option<int>
    decreases states.len(),
{
    if states.len() == 0 {
        None
    } else if states[states.len() - 1].0 == key {
        Some(states.len() - 1)
    } else {
        key_index(states.drop_last(), key)
    }
}

/// The view of an in-memory rate limiter: each key seen, with its state, in
/// the order first seen; the default config; and the endpoint configs.
pub struct LimiterView {
    pub states: Seq<((Seq<char>, Option<Seq<char>>), LimiterStateView)>,
    pub default_config: RateLimitConfig,
    pub endpoint_configs: Seq<(Seq<char>, RateLimitConfig)>,
}

/// One check of `key` at `now` on a limiter: the key's state (made fresh
/// from its config when the key is new) takes one `check_step`.
pub open spec fn limiter_check(l: LimiterView, key: (Seq<char>, Option<Seq<char>>), now: u64) -> (LimiterView, RateLimitResult) {
    match key_index(l.states, key) {
        Some(i) => {
            let step = check_step(l.states[i].1, now);
            (LimiterView { states: l.states.update(i, (key, step.0)), ..l }, step.1)
        },
        None => {
            let step = check_step(fresh_state(config_for(l.default_config, l.endpoint_configs, key), now), now);
            (LimiterView { states: l.states.push((key, step.0)), ..l }, step.1)
        },
    }
}

/// The configs of the limiter all refill, and every key's state is consistent.
pub open spec fn limiter_wf(l: LimiterView) -> bool {
    &&& l.default_config.refill_rate > 0
    &&& forall|i: int| 0 <= i < l.endpoint_configs.len() ==> (#[trigger] l.endpoint_configs[i]).1.refill_rate > 0
    &&& forall|i: int| 0 <= i < l.states.len() ==> state_wf(#[trigger] l.states[i].1)
}

/// What `key_index` finds.
pub proof fn lemma_key_index(
    states: Seq<((Seq<char>, Option<Seq<char>>), LimiterStateView)>,
    key: (Seq<char>, Option<Seq<char>>),
)
    ensures
        key_index(states, key) matches Some(i) ==> 0 <= i < states.len() && states[i].0 == key,
        key_index(states, key) is None ==> forall|j: int| 0 <= j < states.len() ==> states[j].0 != key,
    decreases states.len(),
{
    if states.len() > 0 && states[states.len() - 1].0 != key {
        lemma_key_index(states.drop_last(), key);
        let d = states.drop_last();
        assert forall|j: int| 0 <= j < d.len() implies d[j] == states[j] by {}
    }
}

/// What `endpoint_config` finds.
pub proof fn lemma_endpoint_config(configs: Seq<(Seq<char>, RateLimitConfig)>, e: Seq<char>)
    ensures
        endpoint_config(configs, e) matches Some(c) ==> exists|j: int| 0 <= j < configs.len() && #[trigger] configs[j] == (e, c),
    decreases configs.len(),
{
    if configs.len() > 0 && configs[configs.len() - 1].0 != e {
        lemma_endpoint_config(configs.drop_last(), e);
        if let Some(c) = endpoint_config(configs, e) {
            let j = choose|j: int| 0 <= j < configs.drop_last().len() && #[trigger] configs.drop_last()[j] == (e, c);
            assert(configs[j] == (e, c));
        }
    } else if configs.len() > 0 {
        assert(configs[configs.len() - 1] == (e, configs[configs.len() - 1].1));
    }
}

/// The states kept by a cleanup at `now`: each key's window keeps the
/// requests that still count, and keys left with none are dropped.
pub open spec fn cleaned_states(
    states: Seq<((Seq<char>, Option<Seq<char>>), LimiterStateView)>,
    now: u64,
) -> Seq<((Seq<char>, Option<Seq<char>>), LimiterStateView)>
    decreases states.len(),
{
    if states.len() == 0 {
        states
    } else {
        let rest = cleaned_states(states.drop_last(), now);
        let (k, st) = states[states.len() - 1];
        let kept = recent(st.entries, st.window, now);
        if kept.len() > 0 { rest.push((k, LimiterStateView { entries: kept, ..st })) } else { rest }
    }
}

/// In-memory rate limiter.
pub struct RateLimiter {
    states: Vec<(RateLimitKey, RateLimiterState)>,
    default_config: RateLimitConfig,
    endpoint_configs: Vec<(String, RateLimitConfig)>,
}

impl View for RateLimiter {
    type V = LimiterView;

    closed spec fn view(&self) -> LimiterView {
        LimiterView {
            states: self.states@.map_values(|e: (RateLimitKey, RateLimiterState)| (e.0@, e.1@)),
            default_config: self.default_config,
            endpoint_configs: self.endpoint_configs@.map_values(|e: (String, RateLimitConfig)| (e.0@, e.1)),
        }
    }
}

impl Default for RateLimiter {
    /// A limiter with the default config.
    fn default() -> (res: Self)
        ensures
            limiter_wf(res@),
            res@.states == Seq::<((Seq<char>, Option<Seq<char>>), LimiterStateView)>::empty(),
            res@.default_config == (RateLimitConfig { max_requests: 1000, window: 60_000, burst_capacity: 100, refill_rate: 16_670 }),
            res@.endpoint_configs == Seq::<(Seq<char>, RateLimitConfig)>::empty(),
    {
        RateLimiter::new(RateLimitConfig::default())
    }
}

impl RateLimiter {
    /// A limiter with no keys seen and no endpoint configs. A config must
    /// refill: a bucket that never refills cannot say when to retry.
    pub fn new(default_config: RateLimitConfig) -> (res: Self)
        requires
            default_config.refill_rate > 0,
        ensures
            limiter_wf(res@),
            res@.states == Seq::<((Seq<char>, Option<Seq<char>>), LimiterStateView)>::empty(),
            res@.default_config == default_config,
            res@.endpoint_configs == Seq::<(Seq<char>, RateLimitConfig)>::empty(),
    {
        let res = RateLimiter { states: Vec::new(), default_config, endpoint_configs: Vec::new() };
        assert(res@.states =~= Seq::<((Seq<char>, Option<Seq<char>>), LimiterStateView)>::empty());
        assert(res@.endpoint_configs =~= Seq::<(Seq<char>, RateLimitConfig)>::empty());
        res
    }


    /// Registers the config of an endpoint, replacing an earlier one; keys
    /// already seen keep their state.
    pub fn with_endpoint_config(self, endpoint: String, config: RateLimitConfig) -> (res: Self)
        requires
            limiter_wf(self@),
            config.refill_rate > 0,
        ensures
            limiter_wf(res@),
            res@.states == self@.states,
            res@.default_config == self@.default_config,
            forall|e: Seq<char>| #[trigger] endpoint_config(res@.endpoint_configs, e)
                == if e == endpoint@ { Some(config) } else { endpoint_config(self@.endpoint_configs, e) },
    {
        let mut this = self;
        let ghost before = this@.endpoint_configs;
        let ghost before_states = this@.states;
        this.endpoint_configs.push((endpoint, config));
        proof {
            assert(this@.states =~= before_states);
            let after = this@.endpoint_configs;
            assert(after =~= before.push((endpoint@, config)));
            assert(after.drop_last() =~= before);
            assert forall|i: int| 0 <= i < after.len() implies (#[trigger] after[i]).1.refill_rate > 0 by {
                if i < before.len() {
                    assert(after[i] == before[i]);
                }
            }
        }
        this
    }

    /// The position of `key`'s state.
    fn find_state(&self, key: &RateLimitKey) -> (res: Option<usize>)
        ensures
            res matches Some(i) ==> key_index(self@.states, key@) == Some(i as int),
            res is None ==> key_index(self@.states, key@) is None,
    {
        let mut i: usize = self.states.len();
        proof {
            assert(self@.states.take(i as int) =~= self@.states);
        }
        while i > 0
            invariant
                i <= self.states@.len(),
                key_index(self@.states, key@) == key_index(self@.states.take(i as int), key@),
            decreases i,
        {
            proof {
                assert(self@.states.take(i as int).drop_last() =~= self@.states.take(i - 1));
            }
            if self.states[i - 1].0 == *key {
                return Some(i - 1);
            }
            i = i - 1;
        }
        None
    }

    /// The config a new state for `key` is made with.
    fn config_for_key(&self, key: &RateLimitKey) -> (res: RateLimitConfig)
        requires
            limiter_wf(self@),
        ensures
            res == config_for(self@.default_config, self@.endpoint_configs, key@),
            res.refill_rate > 0,
    {
        match &key.endpoint {
            None => self.default_config,
            Some(e) => {
                let mut i: usize = self.endpoint_configs.len();
                proof {
                    assert(self@.endpoint_configs.take(i as int) =~= self@.endpoint_configs);
                }
                while i > 0
                    invariant
                        i <= self@.endpoint_configs.len(),
                        limiter_wf(self@),
                        key@.1 == Some(e@),
                        endpoint_config(self@.endpoint_configs, e@) == endpoint_config(self@.endpoint_configs.take(i as int), e@),
                    decreases i,
                {
                    proof {
                        assert(self@.endpoint_configs.take(i as int).drop_last() =~= self@.endpoint_configs.take(i - 1));
                    }
                    if self.endpoint_configs[i - 1].0 == *e {
                        proof {
                            assert(self@.endpoint_configs[i - 1] == (self.endpoint_configs@[i - 1].0@, self.endpoint_configs@[i - 1].1));
                            assert(self@.endpoint_configs.take(i as int)[i - 1] == self@.endpoint_configs[i - 1]);
                        }
                        return self.endpoint_configs[i - 1].1;
                    }
                    i = i - 1;
                }
                self.default_config
            },
        }
    }

    /// Drops, at `now`, the keys whose window holds no request that still
    /// counts; the others keep only the requests that still count.
    pub fn cleanup_at(&mut self, now: u64)
        requires
            limiter_wf(old(self)@),
        ensures
            limiter_wf(final(self)@),
            final(self)@ == (LimiterView { states: cleaned_states(old(self)@.states, now), ..old(self)@ }),
    {
        let ghost before = self@;
        let mut rest: Vec<(RateLimitKey, RateLimiterState)> = Vec::new();
        std::mem::swap(&mut rest, &mut self.states);
        let mut kept: Vec<(RateLimitKey, RateLimiterState)> = Vec::new();
        let ghost all = before.states;
        let ghost n = all.len();
        let count = rest.len();
        proof {
            assert(rest@.len() == n);
            assert(n == count);
        }
        let mut i: usize = 0;
        while rest.len() > 0
            invariant
                i <= n,
                n == all.len(),
                n <= usize::MAX,
                rest@.len() == n - i,
                forall|j: int| 0 <= j < rest@.len() ==> (#[trigger] rest@[j]).0@ == all[i + j].0
                    && rest@[j].1@ == all[i + j].1,
                kept@.map_values(|e: (RateLimitKey, RateLimiterState)| (e.0@, e.1@)) == cleaned_states(all.take(i as int), now),
                forall|j: int| 0 <= j < all.len() ==> state_wf(#[trigger] all[j].1),
                forall|j: int| 0 <= j < kept@.len() ==> state_wf((#[trigger] kept@[j]).1@),
                self.default_config == before.default_config,
                self@.endpoint_configs == before.endpoint_configs,
            decreases rest@.len(),
        {
            let (key, mut state) = rest.remove(0);
            proof {
                assert(all.take(i + 1).drop_last() =~= all.take(i as int));
                assert(state@ == all[i as int].1);
            }
            state.sliding_window.cleanup_at(now);
            let ghost kv = (key@, state@);
            if state.sliding_window.counts.len() > 0 {
                kept.push((key, state));
            }
            proof {
                let m = kept@.map_values(|e: (RateLimitKey, RateLimiterState)| (e.0@, e.1@));
                assert(m =~= cleaned_states(all.take(i + 1), now));
            }
            i = i + 1;
        }
        proof {
            assert(all.take(i as int) =~= all);
        }
        self.states = kept;
        proof {
            assert(self@.states =~= cleaned_states(before.states, now));
            assert(self@.endpoint_configs =~= before.endpoint_configs);
        }
    }

    /// Drops the keys whose window holds no request that still counts now.
    pub fn cleanup(&mut self)
        requires
            limiter_wf(old(self)@),
        ensures
            limiter_wf(final(self)@),
            final(self)@.default_config == old(self)@.default_config,
            final(self)@.endpoint_configs == old(self)@.endpoint_configs,
            exists|now: u64| final(self)@.states == #[trigger] cleaned_states(old(self)@.states, now),
    {
        self.cleanup_at(crate::clock::now_millis())
    }

    /// Checks a request of `key` at `now`: the key's state, made from its
    /// config the first time the key is seen, takes one check.
    pub fn check_at(&mut self, key: RateLimitKey, now: u64) -> (res: RateLimitResult)
        requires
            limiter_wf(old(self)@),
        ensures
            limiter_wf(final(self)@),
            (final(self)@, res) == limiter_check(old(self)@, key@, now),
    {
        let ghost k = key@;
        proof {
            lemma_key_index(self@.states, k);
        }
        let idx = match self.find_state(&key) {
            Some(i) => i,
            None => {
                let config = self.config_for_key(&key);
                let state = RateLimiterState::new_at(&config, now);
                self.states.push((key, state));
                self.states.len() - 1
            },
        };
        let ghost mid = self@;
        proof {
            assert(mid.states[idx as int].0 == k);
            assert(state_wf(mid.states[idx as int].1));
        }
        let res = self.states[idx].1.check(now);
        proof {
            let l = old(self)@;
            let (l2, r2) = limiter_check(l, k, now);
            assert(self@.states =~= l2.states);
            assert(self@.endpoint_configs =~= l2.endpoint_configs);
            assert forall|i: int| 0 <= i < self@.states.len() implies state_wf(#[trigger] self@.states[i].1) by {
                if i != idx {
                    assert(self@.states[i] == mid.states[i]);
                }
            }
        }
        res
    }

    /// Checks a request of `key` now.
    pub fn check(&mut self, key: RateLimitKey) -> (res: RateLimitResult)
        requires
            limiter_wf(old(self)@),
        ensures
            limiter_wf(final(self)@),
            exists|now: u64| (final(self)@, res) == #[trigger] limiter_check(old(self)@, key@, now),
    {
        self.check_at(key, crate::clock::now_millis())
    }

    /// Checks a request against an organization's global limit, now.
    pub fn check_org(&mut self, org_id: String) -> (res: RateLimitResult)
        requires
            limiter_wf(old(self)@),
        ensures
            limiter_wf(final(self)@),
            exists|now: u64| (final(self)@, res) == #[trigger] limiter_check(old(self)@, (org_id@, None), now),
    {
        self.check(RateLimitKey::org(org_id))
    }

    /// Checks a request against an organization's limit on one endpoint, now.
    pub fn check_endpoint(&mut self, org_id: String, endpoint: String) -> (res: RateLimitResult)
        requires
            limiter_wf(old(self)@),
        ensures
            limiter_wf(final(self)@),
            exists|now: u64| (final(self)@, res) == #[trigger] limiter_check(old(self)@, (org_id@, Some(endpoint@)), now),
    {
        self.check(RateLimitKey::endpoint(org_id, endpoint))
    }
}

/// Error returned when a rate limit is exceeded.
#[derive(Debug, Clone, Copy)]
pub enum RateLimitError {
    Exceeded(RateLimitResult),
}

impl RateLimitError {
    /// The result of the refused check.
    pub fn result(&self) -> (res: &RateLimitResult)
        ensures
            *self == RateLimitError::Exceeded(*res),
    {
        match self {
            RateLimitError::Exceeded(r) => r,
        }
    }
}

/// The view of an optional string slice.
pub open spec fn opt_str(o: Option<&str>) -> Option<Seq<char>> {
    match o {
        Some(e) => Some(e@),
        None => None,
    }
}

/// What the middleware does at `now`: one check of the key, with an allowed
/// result passed on and a refused one turned into an error.
pub open spec fn middleware_outcome(
    l: LimiterView,
    l2: LimiterView,
    org_id: Seq<char>,
    endpoint: Option<Seq<char>>,
    now: u64,
    res: Result<RateLimitResult, RateLimitError>,
) -> bool {
    let (after, r) = limiter_check(l, (org_id, endpoint), now);
    &&& l2 == after
    &&& res == if r.allowed { Ok(r) } else { Err(RateLimitError::Exceeded(r)) }
}

/// Checks a request (against the endpoint's limit when an endpoint is
/// given, else the organization's) now: an allowed request gives its
/// result, a refused one the error that carries it.
pub fn rate_limit_middleware(
    limiter: &mut RateLimiter,
    org_id: &str,
    endpoint: Option<&str>,
) -> (res: Result<RateLimitResult, RateLimitError>)
    requires
        limiter_wf(old(limiter)@),
    ensures
        limiter_wf(final(limiter)@),
        exists|now: u64| #[trigger] middleware_outcome(old(limiter)@, final(limiter)@, org_id@, opt_str(endpoint), now, res),
{
    let ghost l = limiter@;
    let result = match endpoint {
        Some(ep) => limiter.check_endpoint(org_id.to_owned(), ep.to_owned()),
        None => limiter.check_org(org_id.to_owned()),
    };
    let ghost key = (org_id@, opt_str(endpoint));
    let ghost now = choose|now: u64| (limiter@, result) == #[trigger] limiter_check(l, key, now);
    let res = if result.allowed {
        Ok(result)
    } else {
        Err(RateLimitError::Exceeded(result))
    };
    assert(middleware_outcome(l, limiter@, org_id@, opt_str(endpoint), now, res));
    res
}

/// The state after `n` checks at the same time `now`.
pub open spec fn repeat_checks(s: LimiterStateView, now: u64, n: nat) -> LimiterStateView
    decreases n,
{
    if n == 0 { s } else { check_step(repeat_checks(s, now, (n - 1) as nat), now).0 }
}

/// `n` requests, all recorded at `now`.
pub open spec fn same_time_records(now: u64, n: nat) -> Seq<(u64, u64)> {
    Seq::new(n, |j: int| (now, 1u64))
}

/// Requests recorded at `now` all count at `now` in a window of some length.
pub proof fn lemma_same_time_recent(now: u64, n: nat, window: u64)
    requires
        window > 0,
    ensures
        recent(same_time_records(now, n), window, now) == same_time_records(now, n),
    decreases n,
{
    if n > 0 {
        assert(same_time_records(now, n).drop_last() =~= same_time_records(now, (n - 1) as nat));
        lemma_same_time_recent(now, (n - 1) as nat, window);
        assert(same_time_records(now, (n - 1) as nat).push((now, 1u64)) =~= same_time_records(now, n));
    }
}

/// The state of a fresh key after `i` requests at one instant, while the
/// burst lasts: `i` tokens spent and `i` requests recorded.
pub proof fn lemma_burst_state(config: RateLimitConfig, now: u64, i: nat)
    requires
        config.refill_rate > 0,
        config.window > 0,
        config.burst_capacity <= config.max_requests,
        i <= config.burst_capacity,
    ensures
        repeat_checks(fresh_state(config, now), now, i) == (LimiterStateView {
            tokens: (config.burst_capacity - i) * TOKEN,
            entries: same_time_records(now, i),
            ..fresh_state(config, now)
        }),
    decreases i,
{
    if i == 0 {
        assert(same_time_records(now, 0) =~= Seq::<(u64, u64)>::empty());
    } else {
        lemma_burst_state(config, now, (i - 1) as nat);
        let prev = repeat_checks(fresh_state(config, now), now, (i - 1) as nat);
        lemma_same_time_recent(now, (i - 1) as nat, config.window);
        lemma_same_time_recent(now, i, config.window);
        assert(same_time_records(now, (i - 1) as nat).push((now, 1u64)) =~= same_time_records(now, i));
        assert((config.burst_capacity - (i - 1)) * TOKEN == (config.burst_capacity - i) * TOKEN + TOKEN) by (nonlinear_arith);
        assert((config.burst_capacity - i) * TOKEN >= 0) by (nonlinear_arith)
            requires i <= config.burst_capacity;
        assert(saturating_diff(now as int, prev.last_refill) == 0);
        assert(refilled_tokens(prev.tokens, prev.last_refill, prev.capacity, prev.rate, now as int) == prev.tokens);
        assert(recent(prev.entries, prev.window, now).len() == i - 1);
        assert(repeat_checks(fresh_state(config, now), now, i) == check_step(prev, now).0);
        let kept = recent(prev.entries, prev.window, now);
        assert(kept == same_time_records(now, (i - 1) as nat));
        let after = recent(kept.push((now, 1u64)), prev.window, now);
        assert(after == same_time_records(now, i));
        assert(prev.tokens >= TOKEN);
        assert(check_step(prev, now).0.tokens == prev.tokens - TOKEN);
        assert(prev.tokens <= prev.capacity) by (nonlinear_arith)
            requires prev.tokens == (config.burst_capacity - (i - 1)) * TOKEN,
                prev.capacity == config.burst_capacity * TOKEN, i >= 1;
    }
}

/// Burst protection: at one instant, a fresh key with a burst capacity of
/// `b` (and a window admitting at least `b`) is allowed exactly `b`
/// requests; the next is refused, with a time to retry.
pub proof fn lemma_burst(config: RateLimitConfig, now: u64)
    requires
        config.refill_rate > 0,
        config.window > 0,
        config.burst_capacity <= config.max_requests,
    ensures
        forall|i: nat| i < config.burst_capacity ==>
            (#[trigger] check_step(repeat_checks(fresh_state(config, now), now, i), now)).1.allowed,
        !check_step(repeat_checks(fresh_state(config, now), now, config.burst_capacity as nat), now).1.allowed,
        check_step(repeat_checks(fresh_state(config, now), now, config.burst_capacity as nat), now).1.retry_after is Some,
{
    assert forall|i: nat| i < config.burst_capacity implies
        (#[trigger] check_step(repeat_checks(fresh_state(config, now), now, i), now)).1.allowed by {
        lemma_burst_state(config, now, i);
        assert((config.burst_capacity - i) * TOKEN >= TOKEN) by (nonlinear_arith)
            requires i < config.burst_capacity;
        assert((config.burst_capacity - i) * TOKEN <= config.burst_capacity * TOKEN) by (nonlinear_arith)
            requires i <= config.burst_capacity;
        lemma_same_time_recent(now, i, config.window);
    }
    lemma_burst_state(config, now, config.burst_capacity as nat);
}

/// A refused request is not recorded in its window: the window only drops
/// the requests that no longer count.
pub proof fn lemma_refusal_leaves_no_record(s: LimiterStateView, now: u64)
    ensures
        !check_step(s, now).1.allowed ==> check_step(s, now).0.entries.len() <= s.entries.len(),
        !check_step(s, now).1.allowed ==> check_step(s, now).1.retry_after is Some,
        check_step(s, now).1.allowed ==> check_step(s, now).1.retry_after is None,
{
    lemma_recent(s.entries, s.window, now);
}

/// Taking the recent requests of a list whose requests all still count
/// keeps the list.
pub proof fn lemma_recent_all_kept(s: Seq<(u64, u64)>, window: u64, now: u64)
    requires
        forall|i: int| 0 <= i < s.len() ==> in_window(#[trigger] s[i].0, window, now),
    ensures
        recent(s, window, now) == s,
    decreases s.len(),
{
    if s.len() > 0 {
        let d = s.drop_last();
        assert forall|i: int| 0 <= i < d.len() implies in_window(#[trigger] d[i].0, window, now) by {
            assert(d[i] == s[i]);
        }
        lemma_recent_all_kept(d, window, now);
        assert(d.push(s[s.len() - 1]) =~= s);
    }
}

/// What "remaining" counts: after an allowed check, the remaining requests
/// and the requests counted in the window (those of before that still
/// count, plus this one when the window is not empty) add up to the
/// maximum; a refused check leaves none remaining.
pub proof fn lemma_remaining_after_check(s: LimiterStateView, now: u64)
    ensures
        check_step(s, now).1.allowed ==> check_step(s, now).1.remaining + check_step(s, now).0.entries.len() == s.max_requests,
        check_step(s, now).1.allowed && s.window > 0
            ==> check_step(s, now).0.entries.len() == recent(s.entries, s.window, now).len() + 1,
        !check_step(s, now).1.allowed ==> check_step(s, now).1.remaining == 0,
{
    lemma_recent(s.entries, s.window, now);
    let kept = recent(s.entries, s.window, now);
    let added = kept.push((now, 1u64));
    lemma_recent(added, s.window, now);
    lemma_recent(kept, s.window, now);
    if s.window > 0 {
        assert forall|i: int| 0 <= i < added.len() implies in_window(#[trigger] added[i].0, s.window, now) by {
            if i < kept.len() {
                assert(added[i] == kept[i]);
            }
        }
        lemma_recent_all_kept(added, s.window, now);
    }
}

/// The first request of a fresh key is allowed when the bucket holds a
/// token and the window admits a request, and leaves one request fewer
/// than the maximum remaining.
pub proof fn lemma_first_request(config: RateLimitConfig, now: u64)
    requires
        config.burst_capacity >= 1,
        config.max_requests >= 1,
        config.window > 0,
    ensures
        check_step(fresh_state(config, now), now).1.allowed,
        check_step(fresh_state(config, now), now).1.remaining == config.max_requests - 1,
{
    let s = fresh_state(config, now);
    assert(config.burst_capacity * TOKEN >= TOKEN) by (nonlinear_arith)
        requires config.burst_capacity >= 1;
    assert(recent(s.entries, s.window, now) =~= Seq::<(u64, u64)>::empty());
    lemma_remaining_after_check(s, now);
}

/// The window never admits more requests than its maximum: a consistent
/// state stays consistent after a check, so its records never exceed the maximum.
pub proof fn lemma_window_bound(s: LimiterStateView, now: u64)
    requires
        state_wf(s),
    ensures
        state_wf(check_step(s, now).0),
        check_step(s, now).0.entries.len() <= s.max_requests,
{
    lemma_recent(s.entries, s.window, now);
    let kept = recent(s.entries, s.window, now);
    let refilled = refilled_tokens(s.tokens, s.last_refill, s.capacity, s.rate, now as int);
    if refilled >= TOKEN && kept.len() < s.max_requests {
        let added = kept.push((now, 1u64));
        lemma_recent(added, s.window, now);
        assert forall|j: int| 0 <= j < added.len() implies (#[trigger] added[j]).1 == 1 by {
            if j < kept.len() {
                assert(s.entries.contains(kept[j]));
            }
        }
        let after = recent(added, s.window, now);
        assert forall|j: int| 0 <= j < after.len() implies (#[trigger] after[j]).1 == 1 by {
            assert(added.contains(after[j]));
        }
    } else {
        assert forall|j: int| 0 <= j < kept.len() implies (#[trigger] kept[j]).1 == 1 by {
            assert(s.entries.contains(kept[j]));
        }
    }
}

} // verus!
