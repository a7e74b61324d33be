//! The price feed: rate limiting, reconnection and latencies.
use std::collections::VecDeque;
use vstd::prelude::*;

use crate::models::WsTrade;
use crate::number::{min_of, smaller, Number, Ordered, Value};
use crate::number::{law_smaller, lemma_counts};

verus! {

// Token bucket
/// A token bucket: it holds at most a second's worth of requests and fills up
/// with time.
pub struct RateLimiter<S> {
    tokens: S,
    max_tokens: S,
    refill_per_sec: S,
}

impl<S: Value> RateLimiter<S> {
    /// The tokens that are left.
    pub closed spec fn left(self) -> S {
        self.tokens
    }

    /// The tokens that fit, which is also how many come in a second.
    pub closed spec fn capacity(self) -> S {
        self.max_tokens
    }

    pub closed spec fn rate(self) -> S {
        self.refill_per_sec
    }

    /// Whether the bucket is full, and one for some requests a second.
    pub open spec fn is_full_for(self, rps: u64) -> bool {
        &&& self.left() == S::count(rps)
        &&& self.capacity() == S::count(rps)
        &&& self.rate() == S::count(rps)
    }

    /// The tokens after some seconds without a request.
    pub open spec fn refilled(self, elapsed: S) -> S {
        smaller(self.left().sum(elapsed.prod(self.rate())), self.capacity())
    }

    /// Whether a bucket becomes `after` when a token is asked for after some seconds:
    /// with one token less, or with the milliseconds to wait.
    pub open spec fn gives_token(self, elapsed: S, after: Self, wait: Option<u64>) -> bool {
        let tokens = self.refilled(elapsed);
        &&& after.capacity() == self.capacity()
        &&& after.rate() == self.rate()
        &&& if S::count(1).at_most(tokens) {
            wait is None && after.left() == tokens.diff(S::count(1))
        } else {
            wait == Some(self.wait_ms(tokens)) && after.left() == tokens
        }
    }

    /// The milliseconds until the next token, rounded up, where `tokens` are
    /// left.
    pub open spec fn wait_ms(self, tokens: S) -> u64 {
        wrapping_next(S::count(1).diff(tokens).quot(self.rate()).prod(S::count(1000)).whole())
    }
}

impl<S: Number> RateLimiter<S> {
    /// A full bucket for `rps` requests a second.
    pub fn new(rps: u64) -> (r: Self)
        ensures
            r.is_full_for(rps),
    {
        RateLimiter {
            tokens: S::from_u64(rps),
            max_tokens: S::from_u64(rps),
            refill_per_sec: S::from_u64(rps),
        }
    }

    /// Fills the bucket for the seconds since it was last filled.
    fn refill(&mut self, elapsed: S)
        ensures
            final(self).left() == old(self).refilled(elapsed),
            final(self).capacity() == old(self).capacity(),
            final(self).rate() == old(self).rate(),
    {
        self.tokens = min_of(
            self.tokens.plus(elapsed.times(self.refill_per_sec)),
            self.max_tokens,
        );
    }

    /// Takes a token where there is one; otherwise says how many milliseconds
    /// to wait before the next try. `elapsed` is the time in seconds since the
    /// last try.
    pub fn acquire(&mut self, elapsed: S) -> (r: Option<u64>)
        ensures
            old(self).gives_token(elapsed, *final(self), r),
    {
        self.refill(elapsed);
        if S::from_u64(1).le(self.tokens) {
            self.tokens = self.tokens.minus(S::from_u64(1));
            return None;
        }
        let ms = S::from_u64(1).minus(self.tokens).over(self.refill_per_sec).times(
            S::from_u64(1000),
        ).to_u64();
        Some(ms.wrapping_add(1))
    }
}

/// One more, starting over behind the largest integer.
pub open spec fn wrapping_next(n: u64) -> u64 {
    if n == u64::MAX {
        0
    } else {
        (n + 1) as u64
    }
}

/// A bucket never holds more than its capacity: neither filling it nor taking
/// a token from it can overfill it.
pub proof fn law_bucket_stays_within_capacity<S: Ordered>(bucket: RateLimiter<S>, elapsed: S)
    ensures
        !bucket.capacity().below(bucket.refilled(elapsed)),
        S::count(1).at_most(bucket.refilled(elapsed)) ==> !bucket.capacity().below(
            bucket.refilled(elapsed).diff(S::count(1)),
        ),
{
    let tokens = bucket.refilled(elapsed);
    let one = S::count(1);
    let less = tokens.diff(one);
    law_smaller(bucket.left().sum(elapsed.prod(bucket.rate())), bucket.capacity());
    lemma_counts::<S>(0, 1);
    S::law_strict(one, S::count(0));
    S::law_diff(tokens, one);
    S::law_strict(bucket.capacity(), less);
    S::law_compare(bucket.capacity(), less);
    S::law_compare(one, tokens);
    S::law_compare(tokens, less);
    S::law_chain(bucket.capacity(), less, tokens);
}

// Price staleness
/// A price and when it came, on the caller's millisecond clock.
#[derive(Debug, Clone, Copy)]
pub struct PriceUpdate<S> {
    pub price: S,
    pub received: u64,
}

impl<S: Value> PriceUpdate<S> {
    /// The milliseconds since the price came; none while the clock stands
    /// before that.
    pub open spec fn age(self, now: u64) -> u64 {
        if now < self.received {
            0
        } else {
            (now - self.received) as u64
        }
    }

    /// Whether the price is older than some milliseconds.
    pub open spec fn is_older(self, now: u64, max_age_ms: u64) -> bool {
        self.age(now) > max_age_ms
    }
}

impl<S: Number> PriceUpdate<S> {
    pub fn age_ms(&self, now: u64) -> (r: u64)
        ensures
            r == self.age(now),
    {
        now.saturating_sub(self.received)
    }

    pub fn is_stale(&self, now: u64, max_age_ms: u64) -> (r: bool)
        ensures
            r == self.is_older(now, max_age_ms),
    {
        self.age_ms(now) > max_age_ms
    }
}

// Reconnection
/// The longest wait between two connection attempts, in seconds.
pub const MAX_BACKOFF_SECS: u64 = 60;

/// The wait before the next connection attempt: it doubles from one second up
/// to a minute, and starts over after a connection.
#[derive(Debug, Clone, Copy)]
pub struct Backoff {
    secs: u64,
}

/// The wait after `failures` failures in a row.
pub open spec fn wait_after(failures: nat) -> nat
    decreases failures,
{
    if failures == 0 {
        1
    } else {
        doubled(wait_after((failures - 1) as nat))
    }
}

/// Twice the wait, up to the longest.
pub open spec fn doubled(secs: nat) -> nat {
    if 2 * secs < MAX_BACKOFF_SECS {
        2 * secs
    } else {
        MAX_BACKOFF_SECS as nat
    }
}

impl Backoff {
    #[verifier::type_invariant]
    spec fn in_range(self) -> bool {
        1 <= self.secs <= MAX_BACKOFF_SECS
    }

    /// The seconds that the next wait takes.
    pub closed spec fn next_wait(self) -> nat {
        self.secs as nat
    }

    pub fn new() -> (r: Self)
        ensures
            r.next_wait() == 1,
    {
        Backoff { secs: 1 }
    }

    /// The next wait; the one after it is twice as long, up to a minute.
    pub fn wait(&mut self) -> (r: u64)
        ensures
            r == old(self).next_wait(),
            1 <= r <= MAX_BACKOFF_SECS,
            final(self).next_wait() == doubled(old(self).next_wait()),
    {
        proof {
            use_type_invariant(&*self);
        }
        let now = self.secs;
        self.secs = if now * 2 < MAX_BACKOFF_SECS {
            now * 2
        } else {
            MAX_BACKOFF_SECS
        };
        now
    }

    /// A connection was made.
    pub fn reset(&mut self)
        ensures
            final(self).next_wait() == 1,
    {
        self.secs = 1;
    }
}

/// Every wait lies between a second and a minute, and waits never get shorter
/// while the failures go on.
pub proof fn law_waits_grow_to_a_minute(failures: nat)
    ensures
        1 <= wait_after(failures) <= MAX_BACKOFF_SECS,
        wait_after(failures) <= wait_after(failures + 1),
        failures >= 6 ==> wait_after(failures) == MAX_BACKOFF_SECS,
    decreases failures,
{
    reveal_with_fuel(wait_after, 8);
    if failures > 0 {
        law_waits_grow_to_a_minute((failures - 1) as nat);
    }
}

// The feed
/// The address of the stream of a symbol's trades.
pub open spec fn trades_address(symbol_lower: Seq<char>) -> Seq<char> {
    "wss://stream.binance.com:9443/ws/"@ + symbol_lower + "@aggTrade"@
}

/// The address of the stream of a symbol's trades; the symbol is in lower case.
pub fn trade_stream_url(symbol_lower: &str) -> (r: String)
    ensures
        r@ == trades_address(symbol_lower@),
{
    let mut r = "wss://stream.binance.com:9443/ws/".to_owned();
    r.append(symbol_lower);
    r.append("@aggTrade");
    r
}

/// What happens on the connection.
pub enum FeedEvent {
    ConnectFailed,
    Connected,
    /// A trade, received at a time of the wall clock in milliseconds.
    Trade { trade: WsTrade, now_ms: u64 },
    /// A message that carries no trade.
    Other,
    Closed,
    ReadFailed,
    Ended,
}

/// What to do next.
pub enum FeedAction<S> {
    /// Read the next message.
    Read,
    /// Hand the price on, then read the next message.
    Publish(S),
    /// Wait that many seconds, then connect.
    Reconnect(u64),
}

/// The state of the price listener.
pub struct PriceFeed {
    backoff: Backoff,
    latencies: VecDeque<u64>,
    buf_size: usize,
}

/// The latencies with a new one behind them; the oldest leaves when there are
/// more than `size`.
pub open spec fn with_latency(latencies: Seq<u64>, latency: u64, size: usize) -> Seq<u64> {
    let all = latencies.push(latency);
    if all.len() > size {
        all.skip(1)
    } else {
        all
    }
}

/// The milliseconds from a trade to its arrival; none where the clocks
/// disagree.
pub open spec fn latency_of(trade_time: u64, now_ms: u64) -> u64 {
    if now_ms < trade_time {
        0
    } else {
        (now_ms - trade_time) as u64
    }
}

impl PriceFeed {
    pub closed spec fn next_wait(self) -> nat {
        self.backoff.next_wait()
    }

    /// The latest latencies, oldest first.
    pub closed spec fn seen(self) -> Seq<u64> {
        self.latencies@
    }

    pub closed spec fn size(self) -> usize {
        self.buf_size
    }

    pub fn new(buf_size: usize) -> (r: Self)
        ensures
            r.next_wait() == 1,
            r.seen() == Seq::<u64>::empty(),
            r.size() == buf_size,
    {
        PriceFeed { backoff: Backoff::new(), latencies: VecDeque::new(), buf_size }
    }

    pub fn latencies(&self) -> (r: &VecDeque<u64>)
        ensures
            r@ == self.seen(),
    {
        &self.latencies
    }

    /// Whether a feed becomes `after` at an event, and what it then does.
    pub open spec fn takes_event<S: Value>(
        self,
        event: FeedEvent,
        after: Self,
        action: FeedAction<S>,
    ) -> bool {
        &&& after.size() == self.size()
        &&& event is Trade || after.seen() == self.seen()
        &&& match event {
            FeedEvent::ConnectFailed => {
                &&& action == FeedAction::<S>::Reconnect(self.next_wait() as u64)
                &&& after.next_wait() == doubled(self.next_wait())
            },
            FeedEvent::Connected => {
                &&& action == FeedAction::<S>::Read
                &&& after.next_wait() == 1
            },
            FeedEvent::Trade { trade, now_ms } => {
                &&& after.next_wait() == self.next_wait()
                &&& match S::reading(trade.price@) {
                    Some(price) => {
                        &&& action == FeedAction::Publish(price)
                        &&& after.seen() == with_latency(
                            self.seen(),
                            latency_of(trade.trade_time, now_ms),
                            self.size(),
                        )
                    },
                    None => {
                        &&& action == FeedAction::<S>::Read
                        &&& after.seen() == self.seen()
                    },
                }
            },
            FeedEvent::Other => {
                &&& action == FeedAction::<S>::Read
                &&& after.next_wait() == self.next_wait()
            },
            FeedEvent::Closed | FeedEvent::Ended => {
                &&& action == FeedAction::<S>::Reconnect(self.next_wait() as u64)
                &&& after.next_wait() == doubled(self.next_wait())
            },
            FeedEvent::ReadFailed => {
                &&& action == FeedAction::<S>::Reconnect(
                    (self.next_wait() + doubled(self.next_wait())) as u64,
                )
                &&& after.next_wait() == doubled(doubled(self.next_wait()))
            },
        }
    }

    /// Takes an event of the connection. A failed read costs two waits: one for
    /// the failure and one for the reconnection.
    pub fn on_event<S: Number>(&mut self, event: FeedEvent) -> (r: FeedAction<S>)
        ensures
            old(self).takes_event(event, *final(self), r),
    {
        match event {
            FeedEvent::ConnectFailed => FeedAction::Reconnect(self.backoff.wait()),
            FeedEvent::Connected => {
                self.backoff.reset();
                FeedAction::Read
            },
            FeedEvent::Trade { trade, now_ms } => {
                match S::parse(trade.price.as_str()) {
                    Some(price) => {
                        let latency = now_ms.saturating_sub(trade.trade_time);
                        self.latencies.push_back(latency);
                        if self.latencies.len() > self.buf_size {
                            let _oldest = self.latencies.pop_front();
                            assert(self.latencies@ =~= old(self).seen().push(latency).skip(1));
                        }
                        FeedAction::Publish(price)
                    },
                    None => FeedAction::Read,
                }
            },
            FeedEvent::Other => FeedAction::Read,
            FeedEvent::Closed => FeedAction::Reconnect(self.backoff.wait()),
            FeedEvent::Ended => FeedAction::Reconnect(self.backoff.wait()),
            FeedEvent::ReadFailed => {
                let first = self.backoff.wait();
                let second = self.backoff.wait();
                FeedAction::Reconnect(first + second)
            },
        }
    }
}

/// The latency buffer never outgrows its size: within it, it stays within it.
pub proof fn law_latencies_stay_within_size(latencies: Seq<u64>, latency: u64, size: usize)
    requires
        latencies.len() <= size,
    ensures
        with_latency(latencies, latency, size).len() <= size,
        size > 0 ==> with_latency(latencies, latency, size).last() == latency,
{
}

} // verus!
