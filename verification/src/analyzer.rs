//! Market analysis: candles from the exchange's answers, the indicators over
//! them, and the statistics of the feed's latencies.
use std::collections::VecDeque;
use vstd::arithmetic::div_mod::lemma_fundamental_div_mod;
use vstd::prelude::*;

use crate::exact::{lemma_factor_out, lemma_prod_in_order, lemma_prod_not_negative};
use crate::exact::lemma_quot_in_order;
use crate::fixed::{capped, lemma_floor_of_multiple, lemma_prod_by_count, lemma_quot_by_count};
use crate::fixed::{Fixed, SCALE};
use crate::models::{
    bucket_of, Candle, MarketState, RawKline, Regime, Trend, TrendSignal, WickProfile,
};
use crate::network::RateLimiter;
use crate::number::{clamp, clamped, larger, lit, max_of, min_of, ratio, smaller};
use crate::number::{lemma_counts, lemma_not_below, lemma_total_not_negative};
use crate::number::{is_number, law_clamped_in_range, lemma_total_of_zeros, lemma_total_push};
use crate::number::total;
use crate::number::{Number, Ordered, Total, Value};
use crate::text::{decimal, numeral};

verus! {

/// The fewest candles that an analysis takes.
pub const MIN_CANDLES: usize = 21;

/// The request weight above which the exchange is given a rest.
pub const WEIGHT_LIMIT: u32 = 1000;

pub struct MarketAnalyzer<S> {
    pub rate_limiter: RateLimiter<S>,
}

// What the indicators are
/// The true range of a candle after the close before it, cut off at `cap_pct`
/// percent of that close.
pub open spec fn true_range<S: Value>(prev_close: S, c: Candle<S>, cap_pct: S) -> S {
    smaller(
        larger(
            larger(c.high.diff(c.low), c.high.diff(prev_close).size()),
            c.low.diff(prev_close).size(),
        ),
        prev_close.prod(cap_pct).quot(S::count(100)),
    )
}

/// The true ranges of all candles but the first.
pub open spec fn true_ranges<S: Value>(candles: Seq<Candle<S>>, cap_pct: S) -> Seq<S> {
    Seq::new(
        (candles.len() - 1) as nat,
        |i: int| true_range(candles[i].close, candles[i + 1], cap_pct),
    )
}

/// Wilder's smoothing over `n` from a seed: each number comes in with weight
/// one, the average so far with weight `n - 1`.
pub open spec fn smoothed<S: Value>(seed: S, xs: Seq<S>, n: u64) -> S
    decreases xs.len(),
{
    if xs.len() == 0 {
        seed
    } else {
        smoothed(seed, xs.drop_last(), n).prod(S::count(n).diff(S::count(1))).sum(xs.last()).quot(
            S::count(n),
        )
    }
}

/// Wilder's average: the mean of the first `n` numbers, then smoothing over
/// the others.
pub open spec fn wilder<S: Value>(xs: Seq<S>, n: int) -> S {
    smoothed(total(xs.take(n)).quot(S::count(n as u64)), xs.skip(n), n as u64)
}

/// The average true range: zero where there are not more candles than the
/// period.
pub open spec fn atr_of<S: Value>(candles: Seq<Candle<S>>, period: int, cap_pct: S) -> S {
    if candles.len() <= period {
        S::count(0)
    } else {
        wilder(true_ranges(candles, cap_pct), period)
    }
}

/// What each close gained on the one before, or zero.
pub open spec fn gains<S: Value>(candles: Seq<Candle<S>>) -> Seq<S> {
    Seq::new(
        (candles.len() - 1) as nat,
        |i: int| larger(candles[i + 1].close.diff(candles[i].close), S::count(0)),
    )
}

/// What each close lost on the one before, or zero.
pub open spec fn losses<S: Value>(candles: Seq<Candle<S>>) -> Seq<S> {
    Seq::new(
        (candles.len() - 1) as nat,
        |i: int| larger(candles[i + 1].close.diff(candles[i].close).negation(), S::count(0)),
    )
}

/// The relative strength of an average gain against an average loss.
pub open spec fn strength<S: Value>(gain: S, loss: S) -> S {
    if loss.below(S::tiny()) {
        S::count(100)
    } else {
        S::count(100).diff(S::count(100).quot(S::count(1).sum(gain.quot(loss))))
    }
}

/// The relative strength index: fifty where there are not more candles than
/// the period.
pub open spec fn rsi_of<S: Value>(candles: Seq<Candle<S>>, period: int) -> S {
    if candles.len() <= period {
        S::count(50)
    } else {
        strength(wilder(gains(candles), period), wilder(losses(candles), period))
    }
}

/// The closes, in order.
pub open spec fn closes<S: Value>(candles: Seq<Candle<S>>) -> Seq<S> {
    Seq::new(candles.len(), |i: int| candles[i].close)
}

/// Exponential averaging from a seed: each number comes in with weight
/// `alpha`.
pub open spec fn averaged<S: Value>(seed: S, xs: Seq<S>, alpha: S) -> S
    decreases xs.len(),
{
    if xs.len() == 0 {
        seed
    } else {
        xs.last().prod(alpha).sum(
            averaged(seed, xs.drop_last(), alpha).prod(S::count(1).diff(alpha)),
        )
    }
}

/// The exponential moving average: the mean of the first closes, then
/// averaging with weight `2 / (period + 1)`; the last close where there are
/// fewer candles than the period, and zero where there is none.
pub open spec fn ema_of<S: Value>(candles: Seq<Candle<S>>, period: int) -> S {
    if candles.len() < period {
        if candles.len() == 0 {
            S::count(0)
        } else {
            candles.last().close
        }
    } else {
        averaged(
            total(closes(candles).take(period)).quot(S::count(period as u64)),
            closes(candles).skip(period),
            S::count(2).quot(S::count(period as u64).sum(S::count(1))),
        )
    }
}

/// Bullish when the short average is clearly over the long one and the price
/// over the short one, bearish when both are the other way round.
pub open spec fn signal_of<S: Value>(price: S, ema9: S, ema21: S) -> TrendSignal {
    if ema21.prod(ratio(10_005, 10_000)).below(ema9) && ema9.below(price) {
        TrendSignal::Bullish
    } else if ema9.below(ema21.prod(ratio(9_995, 10_000))) && price.below(ema9) {
        TrendSignal::Bearish
    } else {
        TrendSignal::Caution
    }
}

/// The volatility regime of an average range at a price.
pub open spec fn regime_of<S: Value>(atr: S, price: S) -> Regime {
    let r = atr.quot(price);
    if r.below(ratio(8, 1000)) {
        Regime::Low
    } else if r.below(ratio(20, 1000)) {
        Regime::Medium
    } else {
        Regime::High
    }
}

/// The factor of a regime on the spread.
pub open spec fn spread_factor<S: Value>(regime: Regime) -> S {
    match regime {
        Regime::Low => ratio(8, 10),
        Regime::Medium => ratio(12, 10),
        Regime::High => ratio(25, 10),
    }
}

/// The spread in basis points: fifteen percent of the relative range, scaled
/// by the regime, between one half and thirty.
pub open spec fn spread_of<S: Value>(atr: S, price: S, regime: Regime) -> S {
    clamped(
        atr.quot(price).prod(S::count(10_000)).prod(ratio(15, 100)).prod(spread_factor(regime)),
        ratio(5, 10),
        S::count(30),
    )
}

/// The trend by the averages over twenty and fifty candles.
pub open spec fn trend_of<S: Value>(ema20: S, ema50: S) -> Trend {
    if ema50.prod(ratio(1005, 1000)).below(ema20) {
        Trend::Up
    } else if ema20.below(ema50.prod(ratio(995, 1000))) {
        Trend::Down
    } else {
        Trend::Neutral
    }
}

/// The last twenty candles, or all where there are fewer.
pub open spec fn latest<S>(candles: Seq<Candle<S>>) -> Seq<Candle<S>> {
    if candles.len() >= 20 {
        candles.skip(candles.len() - 20)
    } else {
        candles
    }
}

/// The market that the candles show at a live price.
pub open spec fn market_of<S: Value>(
    candles: Seq<Candle<S>>,
    live_price: S,
    cap_pct: S,
) -> MarketState<S> {
    let atr = atr_of(candles, 14, cap_pct);
    let ema9 = ema_of(candles, 9);
    let ema20 = ema_of(candles, 20);
    let ema21 = ema_of(candles, 21);
    let ema50 = ema_of(candles, 50);
    let regime = regime_of(atr, live_price);
    MarketState {
        price: live_price,
        atr,
        rsi: rsi_of(candles, 14),
        ema9,
        ema20,
        ema21,
        ema50,
        trend: trend_of(ema20, ema50),
        trend_signal: signal_of(live_price, ema9, ema21),
        regime,
        spread_bps: spread_of(atr, live_price, regime),
        wick_profile: WickProfile::of(latest(candles)),
    }
}

// Candles of the exchange
/// The candle that a raw one denotes, unless a price cannot be read, is not
/// positive, stands on the wrong side, or the range is over twice the cap.
pub open spec fn candle_of<S: Value>(k: RawKline, cap_pct: S) -> Option<Candle<S>> {
    match (S::reading(k.1@), S::reading(k.2@), S::reading(k.3@), S::reading(k.4@)) {
        (Some(open), Some(high), Some(low), Some(close)) => {
            if high.at_most(S::count(0)) || low.at_most(S::count(0)) || close.at_most(S::count(0))
                || high.below(low) || cap_pct.prod(S::count(2)).below(
                high.diff(low).quot(close).prod(S::count(100)),
            ) {
                None
            } else {
                Some(Candle { open, high, low, close })
            }
        },
        _ => None,
    }
}

/// The candles of an answer, in order, without those that are dropped.
pub open spec fn candles_of<S: Value>(raw: Seq<RawKline>, cap_pct: S) -> Seq<Candle<S>>
    decreases raw.len(),
{
    if raw.len() == 0 {
        Seq::empty()
    } else {
        match candle_of(raw.last(), cap_pct) {
            Some(c) => candles_of(raw.drop_last(), cap_pct).push(c),
            None => candles_of(raw.drop_last(), cap_pct),
        }
    }
}

/// Whether an answer is read as candles, or refused where too few are left.
pub open spec fn reads_candles<S: Value>(
    raw: Seq<RawKline>,
    cap_pct: S,
    r: Result<Vec<Candle<S>>, String>,
) -> bool {
    match r {
        Ok(candles) => {
            &&& candles@ == candles_of(raw, cap_pct)
            &&& candles@.len() >= MIN_CANDLES
        },
        Err(e) => {
            &&& candles_of(raw, cap_pct).len() < MIN_CANDLES
            &&& e@ == "Insufficient candles: "@ + numeral(candles_of(raw, cap_pct).len())
        },
    }
}

/// The seconds to rest for a weight of the last minute's requests.
pub open spec fn rest_for(used: Option<u32>) -> Option<u64> {
    match used {
        Some(w) => if w > WEIGHT_LIMIT {
            Some(5u64)
        } else {
            None
        },
        None => None,
    }
}

/// What is wrong with an HTTP status, where something is; `status` is the code with its
/// reason as text.
pub open spec fn status_fault(code: u16, status: Seq<char>) -> Option<Seq<char>> {
    if 200 <= code < 300 {
        None
    } else {
        Some(
            if code == 429 {
                "429 Rate limit"@
            } else if code == 403 {
                "403 Forbidden"@
            } else {
                "HTTP "@ + status
            },
        )
    }
}

/// The address of the last `limit` candles.
pub open spec fn candles_address(symbol: Seq<char>, interval: Seq<char>, limit: nat) -> Seq<char> {
    "https://api.binance.com/api/v3/klines?symbol="@ + symbol + "&interval="@ + interval
        + "&limit="@ + numeral(limit)
}

/// The text of `candles_address`.
pub fn candles_url(symbol: &str, interval: &str, limit: usize) -> (r: String)
    ensures
        r@ == candles_address(symbol@, interval@, limit as nat),
{
    let mut r = "https://api.binance.com/api/v3/klines?symbol=".to_owned();
    r.append(symbol);
    r.append("&interval=");
    r.append(interval);
    r.append("&limit=");
    r.append(decimal(limit as u64).as_str());
    r
}

/// The seconds to rest when the exchange reports the weight of the last
/// minute's requests.
pub fn weight_pause(used: Option<u32>) -> (r: Option<u64>)
    ensures
        r == rest_for(used),
{
    match used {
        Some(w) => if w > WEIGHT_LIMIT {
            Some(5)
        } else {
            None
        },
        None => None,
    }
}

/// Whether an answer with an HTTP status may be read; `status` is the code with
/// its reason as text.
pub fn check_status(code: u16, status: &str) -> (r: Result<(), String>)
    ensures
        match r {
            Ok(_) => status_fault(code, status@) is None,
            Err(e) => status_fault(code, status@) == Some(e@),
        },
{
    if code == 429 {
        return Err("429 Rate limit".to_owned());
    }
    if code == 403 {
        return Err("403 Forbidden".to_owned());
    }
    if code < 200 || code >= 300 {
        let mut e = "HTTP ".to_owned();
        e.append(status);
        return Err(e);
    }
    Ok(())
}

impl<S: Number> MarketAnalyzer<S> {
    pub fn new(rps: u64) -> (r: Self)
        ensures
            r.rate_limiter.is_full_for(rps),
    {
        MarketAnalyzer { rate_limiter: RateLimiter::new(rps) }
    }

    /// The candle that a raw one denotes, unless it is dropped.
    fn read_candle(k: &RawKline, cap_pct: S) -> (r: Option<Candle<S>>)
        ensures
            r == candle_of(*k, cap_pct),
    {
        let open = S::parse(k.1.as_str());
        let high = S::parse(k.2.as_str());
        let low = S::parse(k.3.as_str());
        let close = S::parse(k.4.as_str());
        match (open, high, low, close) {
            (Some(open), Some(high), Some(low), Some(close)) => {
                let zero = S::from_u64(0);
                if high.le(zero) || low.le(zero) || close.le(zero) || high.lt(low) {
                    return None;
                }
                if cap_pct.times(S::from_u64(2)).lt(
                    high.minus(low).over(close).times(S::from_u64(100)),
                ) {
                    return None;
                }
                Some(Candle { open, high, low, close })
            },
            _ => None,
        }
    }

    /// The candles of the exchange's answer, or an error where too few are
    /// left.
    pub fn get_candles(raw: &[RawKline], cap_pct: S) -> (r: Result<Vec<Candle<S>>, String>)
        ensures
            reads_candles(raw@, cap_pct, r),
    {
        let mut candles: Vec<Candle<S>> = Vec::new();
        let mut i: usize = 0;
        assert(candles@ =~= candles_of(raw@.take(0), cap_pct));
        while i < raw.len()
            invariant
                i <= raw.len(),
                candles@ == candles_of(raw@.take(i as int), cap_pct),
            decreases raw.len() - i,
        {
            assert(raw@.take(i + 1).drop_last() =~= raw@.take(i as int));
            if let Some(c) = MarketAnalyzer::read_candle(&raw[i], cap_pct) {
                candles.push(c);
            }
            i += 1;
        }
        assert(raw@.take(i as int) =~= raw@);
        if candles.len() < MIN_CANDLES {
            let mut e = "Insufficient candles: ".to_owned();
            e.append(decimal(candles.len() as u64).as_str());
            return Err(e);
        }
        Ok(candles)
    }

    /// Wilder's average of the numbers over a period.
    fn wilder_average(xs: &Vec<S>, period: usize) -> (r: S)
        requires
            period <= xs@.len(),
        ensures
            r == wilder(xs@, period as int),
    {
        let n = S::from_u64(period as u64);
        let mut acc = S::from_u64(0);
        let mut i: usize = 0;
        while i < period
            invariant
                i <= period <= xs@.len(),
                acc == total(xs@.take(i as int)),
            decreases period - i,
        {
            proof {
                assert(xs@.take(i + 1) =~= xs@.take(i as int).push(xs@[i as int]));
                lemma_total_push(xs@.take(i as int), xs@[i as int]);
            }
            acc = acc.plus(xs[i]);
            i += 1;
        }
        let seed = acc.over(n);
        let mut avg = seed;
        let ghost rest = xs@.skip(period as int);
        assert(rest.take(0) =~= Seq::empty());
        while i < xs.len()
            invariant
                period <= i <= xs@.len(),
                n == S::count(period as u64),
                rest == xs@.skip(period as int),
                avg == smoothed(seed, rest.take(i - period), period as u64),
            decreases xs.len() - i,
        {
            assert(rest.take(i + 1 - period).drop_last() =~= rest.take(i - period));
            avg = avg.times(n.minus(S::from_u64(1))).plus(xs[i]).over(n);
            i += 1;
        }
        assert(rest.take(i - period) =~= rest);
        avg
    }

    /// The average true range with Wilder's smoothing; single ranges are cut
    /// off at `cap_pct` percent of the close before.
    pub fn calc_atr(candles: &[Candle<S>], period: usize, cap_pct: S) -> (r: S)
        ensures
            r == atr_of(candles@, period as int, cap_pct),
    {
        if candles.len() <= period {
            return S::from_u64(0);
        }
        let mut trs: Vec<S> = Vec::new();
        let mut i: usize = 1;
        while i < candles.len()
            invariant
                1 <= i <= candles@.len(),
                trs@ == true_ranges(candles@, cap_pct).take(i - 1),
            decreases candles.len() - i,
        {
            let prev_close = candles[i - 1].close;
            let c = &candles[i];
            let tr = max_of(
                max_of(c.high.minus(c.low), c.high.minus(prev_close).abs()),
                c.low.minus(prev_close).abs(),
            );
            trs.push(min_of(tr, prev_close.times(cap_pct).over(S::from_u64(100))));
            i += 1;
            assert(trs@ =~= true_ranges(candles@, cap_pct).take(i - 1));
        }
        assert(trs@ =~= true_ranges(candles@, cap_pct));
        MarketAnalyzer::wilder_average(&trs, period)
    }

    /// The relative strength index with Wilder's smoothing.
    pub fn calc_rsi(candles: &[Candle<S>], period: usize) -> (r: S)
        ensures
            r == rsi_of(candles@, period as int),
    {
        if candles.len() <= period {
            return S::from_u64(50);
        }
        let mut up: Vec<S> = Vec::new();
        let mut down: Vec<S> = Vec::new();
        let mut i: usize = 1;
        while i < candles.len()
            invariant
                1 <= i <= candles@.len(),
                up@ == gains(candles@).take(i - 1),
                down@ == losses(candles@).take(i - 1),
            decreases candles.len() - i,
        {
            let d = candles[i].close.minus(candles[i - 1].close);
            up.push(max_of(d, S::from_u64(0)));
            down.push(max_of(d.negate(), S::from_u64(0)));
            i += 1;
            assert(up@ =~= gains(candles@).take(i - 1));
            assert(down@ =~= losses(candles@).take(i - 1));
        }
        assert(up@ =~= gains(candles@));
        assert(down@ =~= losses(candles@));
        let avg_gain = MarketAnalyzer::wilder_average(&up, period);
        let avg_loss = MarketAnalyzer::wilder_average(&down, period);
        if avg_loss.lt(S::epsilon()) {
            return S::from_u64(100);
        }
        S::from_u64(100).minus(
            S::from_u64(100).over(S::from_u64(1).plus(avg_gain.over(avg_loss))),
        )
    }

    /// The exponential moving average.
    pub fn calc_ema(candles: &[Candle<S>], period: usize) -> (r: S)
        ensures
            r == ema_of(candles@, period as int),
    {
        if candles.len() < period {
            return if candles.len() == 0 {
                S::from_u64(0)
            } else {
                candles[candles.len() - 1].close
            };
        }
        let alpha = S::from_u64(2).over(S::from_u64(period as u64).plus(S::from_u64(1)));
        let ghost all = closes(candles@);
        let mut acc = S::from_u64(0);
        let mut i: usize = 0;
        assert(all.take(0) =~= Seq::empty());
        while i < period
            invariant
                i <= period <= candles@.len(),
                all == closes(candles@),
                acc == total(all.take(i as int)),
            decreases period - i,
        {
            proof {
                assert(all.take(i + 1) =~= all.take(i as int).push(all[i as int]));
                lemma_total_push(all.take(i as int), all[i as int]);
            }
            acc = acc.plus(candles[i].close);
            i += 1;
        }
        let seed = acc.over(S::from_u64(period as u64));
        let mut ema = seed;
        let ghost rest = all.skip(period as int);
        assert(rest.take(0) =~= Seq::empty());
        while i < candles.len()
            invariant
                period <= i <= candles@.len(),
                all == closes(candles@),
                rest == all.skip(period as int),
                ema == averaged(seed, rest.take(i - period), alpha),
            decreases candles.len() - i,
        {
            assert(rest.take(i + 1 - period).drop_last() =~= rest.take(i - period));
            ema = candles[i].close.times(alpha).plus(ema.times(S::from_u64(1).minus(alpha)));
            i += 1;
        }
        assert(rest.take(i - period) =~= rest);
        ema
    }

    /// The signal of the averages over nine and twenty-one candles.
    pub fn trend_signal(price: S, ema9: S, ema21: S) -> (r: TrendSignal)
        ensures
            r == signal_of(price, ema9, ema21),
    {
        let bull_ema = ema21.times(lit(10_005, 10_000)).lt(ema9);
        let bear_ema = ema9.lt(ema21.times(lit(9_995, 10_000)));
        if bull_ema && ema9.lt(price) {
            TrendSignal::Bullish
        } else if bear_ema && price.lt(ema9) {
            TrendSignal::Bearish
        } else {
            TrendSignal::Caution
        }
    }

    pub fn regime(atr: S, price: S) -> (r: Regime)
        ensures
            r == regime_of(atr, price),
    {
        let r = atr.over(price);
        if r.lt(lit(8, 1000)) {
            Regime::Low
        } else if r.lt(lit(20, 1000)) {
            Regime::Medium
        } else {
            Regime::High
        }
    }

    pub fn spread_bps(atr: S, price: S, regime: &Regime) -> (r: S)
        ensures
            r == spread_of(atr, price, *regime),
    {
        let base = atr.over(price).times(S::from_u64(10_000)).times(lit(15, 100));
        let mult = match regime {
            Regime::Low => lit(8, 10),
            Regime::Medium => lit(12, 10),
            Regime::High => lit(25, 10),
        };
        clamp(base.times(mult), lit(5, 10), S::from_u64(30))
    }

    /// The full analysis of the candles at a live price.
    pub fn analyze(candles: &[Candle<S>], live_price: S, cap_pct: S) -> (r: MarketState<S>)
        ensures
            r == market_of(candles@, live_price, cap_pct),
    {
        let atr = MarketAnalyzer::calc_atr(candles, 14, cap_pct);
        let rsi = MarketAnalyzer::calc_rsi(candles, 14);
        let ema9 = MarketAnalyzer::calc_ema(candles, 9);
        let ema20 = MarketAnalyzer::calc_ema(candles, 20);
        let ema21 = MarketAnalyzer::calc_ema(candles, 21);
        let ema50 = MarketAnalyzer::calc_ema(candles, 50);
        let regime = MarketAnalyzer::regime(atr, live_price);
        let spread = MarketAnalyzer::spread_bps(atr, live_price, &regime);
        let signal = MarketAnalyzer::trend_signal(live_price, ema9, ema21);
        let trend = if ema50.times(lit(1005, 1000)).lt(ema20) {
            Trend::Up
        } else if ema20.lt(ema50.times(lit(995, 1000))) {
            Trend::Down
        } else {
            Trend::Neutral
        };
        let wick_profile = if candles.len() >= 20 {
            let tail = vstd::slice::slice_subrange(candles, candles.len() - 20, candles.len());
            assert(tail@ =~= latest(candles@));
            WickProfile::from_candles(tail)
        } else {
            WickProfile::from_candles(candles)
        };
        MarketState {
            price: live_price,
            atr,
            rsi,
            ema9,
            ema20,
            ema21,
            ema50,
            trend,
            trend_signal: signal,
            regime,
            spread_bps: spread,
            wick_profile,
        }
    }
}

// Latencies
/// The sum of the latencies.
pub open spec fn latency_sum(s: Seq<u64>) -> nat
    decreases s.len(),
{
    if s.len() == 0 {
        0
    } else {
        latency_sum(s.drop_last()) + s.last() as nat
    }
}

/// The mean, rounded down.
pub open spec fn latency_mean(s: Seq<u64>) -> int {
    latency_sum(s) as int / s.len() as int
}

/// `m` is the least of the latencies.
pub open spec fn is_least(s: Seq<u64>, m: u64) -> bool {
    s.contains(m) && forall|i: int| 0 <= i < s.len() ==> m <= #[trigger] s[i]
}

/// `m` is the greatest of the latencies.
pub open spec fn is_greatest(s: Seq<u64>, m: u64) -> bool {
    s.contains(m) && forall|i: int| 0 <= i < s.len() ==> #[trigger] s[i] <= m
}

/// The square of a latency's distance from the mean.
pub open spec fn square_distance(x: u64, mean: int) -> int {
    (x - mean) * (x - mean)
}

/// The squared distances from the mean, as numbers.
pub open spec fn square_distances<S: Value>(s: Seq<u64>) -> Seq<S> {
    Seq::new(s.len(), |i: int| S::count(square_distance(s[i], latency_mean(s)) as u64))
}

/// The standard deviation of the latencies.
pub open spec fn latency_deviation<S: Value>(s: Seq<u64>) -> S {
    total(square_distances::<S>(s)).quot(S::count(s.len() as u64)).root()
}

/// Whether statistics are those of latencies: mean, least, greatest and deviation.
pub open spec fn tells_latencies<S: Value>(s: Seq<u64>, r: Option<(u64, u64, u64, S)>) -> bool {
    match r {
        None => s.len() == 0,
        Some((avg, min, max, std)) => {
            &&& s.len() > 0
            &&& avg == latency_mean(s)
            &&& is_least(s, min)
            &&& is_greatest(s, max)
            &&& std == latency_deviation::<S>(s)
        },
    }
}

/// Whether the statistics can be taken in sixty-four bits: the sum fits, and
/// the square of each distance from the mean fits with a sign.
pub open spec fn statistics_fit(s: Seq<u64>) -> bool {
    &&& latency_sum(s) <= u64::MAX
    &&& forall|i: int|
        0 <= i < s.len() ==> square_distance(#[trigger] s[i], latency_mean(s)) <= i64::MAX
}

proof fn lemma_sum_grows(s: Seq<u64>, n: int)
    requires
        0 <= n <= s.len(),
    ensures
        latency_sum(s.take(n)) <= latency_sum(s),
    decreases s.len() - n,
{
    if n == s.len() {
        assert(s.take(n) =~= s);
    } else {
        assert(s.take(n + 1).drop_last() =~= s.take(n));
        lemma_sum_grows(s, n + 1);
    }
}

/// The sum of latencies between two bounds lies between as many times the
/// bounds.
proof fn lemma_sum_bounds(s: Seq<u64>, lo: u64, hi: u64)
    requires
        forall|i: int| 0 <= i < s.len() ==> lo <= #[trigger] s[i] <= hi,
    ensures
        s.len() * lo <= latency_sum(s) <= s.len() * hi,
    decreases s.len(),
{
    if s.len() > 0 {
        let rest = s.drop_last();
        assert forall|i: int| 0 <= i < rest.len() implies lo <= #[trigger] rest[i] <= hi by {
            assert(rest[i] == s[i]);
        }
        lemma_sum_bounds(rest, lo, hi);
        assert(s.len() * lo == rest.len() * lo + lo) by (nonlinear_arith)
            requires
                s.len() == rest.len() + 1,
        ;
        assert(s.len() * hi == rest.len() * hi + hi) by (nonlinear_arith)
            requires
                s.len() == rest.len() + 1,
        ;
        assert(lo <= s[s.len() - 1] <= hi);
    } else {
        assert(s.len() * lo == 0 && s.len() * hi == 0) by (nonlinear_arith)
            requires
                s.len() == 0,
        ;
    }
}

/// The mean of latencies lies between the least and the greatest.
pub proof fn law_mean_between_extremes(s: Seq<u64>, least: u64, greatest: u64)
    requires
        is_least(s, least),
        is_greatest(s, greatest),
    ensures
        least <= latency_mean(s) <= greatest,
{
    lemma_sum_bounds(s, least, greatest);
    let n = s.len() as int;
    let t = latency_sum(s) as int;
    assert(n > 0);
    assert(least <= t / n <= greatest) by (nonlinear_arith)
        requires
            n > 0,
            n * least <= t <= n * greatest,
    ;
}

/// Whether `latency_stats` can take the latencies.
pub fn statistics_possible(buf: &VecDeque<u64>) -> (r: bool)
    ensures
        r == statistics_fit(buf@),
{
    let n = buf.len();
    let mut sum: u64 = 0;
    let mut i: usize = 0;
    while i < n
        invariant
            n == buf@.len(),
            i <= n,
            sum == latency_sum(buf@.take(i as int)),
        decreases n - i,
    {
        proof {
            assert(buf@.take(i + 1).drop_last() =~= buf@.take(i as int));
            lemma_sum_grows(buf@, i + 1);
        }
        if sum > u64::MAX - buf[i] {
            return false;
        }
        sum = sum + buf[i];
        i += 1;
    }
    assert(buf@.take(i as int) =~= buf@);
    if n == 0 {
        return true;
    }
    let avg: u64 = sum / (n as u64);
    assert(avg == latency_mean(buf@));
    i = 0;
    while i < n
        invariant
            n == buf@.len(),
            i <= n,
            avg == latency_mean(buf@),
            forall|j: int|
                0 <= j < i ==> square_distance(#[trigger] buf@[j], latency_mean(buf@)) <= i64::MAX,
        decreases n - i,
    {
        let x = buf[i];
        let d: u64 = if x > avg {
            x - avg
        } else {
            avg - x
        };
        assert(square_distance(buf@[i as int], latency_mean(buf@)) == d * d) by (nonlinear_arith)
            requires
                d == x - avg || d == avg - x,
                x == buf@[i as int],
                avg == latency_mean(buf@),
        ;
        assert(d as int * d as int <= u128::MAX) by (nonlinear_arith)
            requires
                d <= u64::MAX,
        ;
        if (d as u128) * (d as u128) > i64::MAX as u128 {
            return false;
        }
        i += 1;
    }
    true
}

/// The mean, least, greatest and standard deviation of the latencies; nothing
/// where there are none.
pub fn latency_stats<S: Number>(buf: &VecDeque<u64>) -> (r: Option<(u64, u64, u64, S)>)
    requires
        statistics_fit(buf@),
    ensures
        tells_latencies(buf@, r),
{
    let n = buf.len();
    if n == 0 {
        return None;
    }
    let mut sum: u64 = buf[0];
    let mut min: u64 = buf[0];
    let mut max: u64 = buf[0];
    let mut i: usize = 1;
    assert(latency_sum(buf@.take(1)) == buf@[0]) by {
        reveal_with_fuel(latency_sum, 2);
    }
    while i < n
        invariant
            n == buf@.len(),
            1 <= i <= n,
            latency_sum(buf@) <= u64::MAX,
            sum == latency_sum(buf@.take(i as int)),
            buf@.contains(min),
            buf@.contains(max),
            forall|j: int| 0 <= j < i ==> min <= #[trigger] buf@[j] <= max,
        decreases n - i,
    {
        proof {
            assert(buf@.take(i + 1).drop_last() =~= buf@.take(i as int));
            lemma_sum_grows(buf@, i + 1);
        }
        let x = buf[i];
        sum = sum + x;
        if x < min {
            min = x;
        }
        if x > max {
            max = x;
        }
        i += 1;
    }
    assert(buf@.take(i as int) =~= buf@);
    let avg: u64 = sum / (n as u64);
    assert(avg == latency_mean(buf@));
    let mut acc = S::from_u64(0);
    let ghost squares = square_distances::<S>(buf@);
    assert(squares.take(0) =~= Seq::empty());
    i = 0;
    while i < n
        invariant
            n == buf@.len(),
            i <= n,
            avg == latency_mean(buf@),
            squares == square_distances::<S>(buf@),
            forall|j: int|
                0 <= j < n ==> square_distance(#[trigger] buf@[j], latency_mean(buf@)) <= i64::MAX,
            acc == total(squares.take(i as int)),
        decreases n - i,
    {
        let x = buf[i];
        let d: u64 = if x > avg {
            x - avg
        } else {
            avg - x
        };
        proof {
            assert(square_distance(buf@[i as int], latency_mean(buf@)) == d * d)
                by (nonlinear_arith)
                requires
                    d == x - avg || d == avg - x,
                    x == buf@[i as int],
                    avg == latency_mean(buf@),
            ;
            assert(squares.take(i + 1) =~= squares.take(i as int).push(squares[i as int]));
            lemma_total_push(squares.take(i as int), squares[i as int]);
        }
        acc = acc.plus(S::from_u64(d * d));
        i += 1;
    }
    assert(squares.take(i as int) =~= squares);
    Some((avg, min, max, acc.over(S::from_u64(n as u64)).sqrt()))
}

// Laws of the indicators
proof fn lemma_period_positive<S: Ordered>(period: int)
    requires
        1 <= period <= u64::MAX,
    ensures
        S::count(0).below(S::count(period as u64)),
        !S::count(period as u64).diff(S::count(1)).below(S::count(0)),
{
    let n = S::count(period as u64);
    S::law_one();
    lemma_counts::<S>(1, period as u64);
    S::law_chain(S::count(0), S::count(1), n);
    S::law_strict(n, S::count(1));
    S::law_diff(n, S::count(1));
}

proof fn lemma_smoothed_not_negative<S: Ordered>(seed: S, xs: Seq<S>, period: int)
    requires
        1 <= period <= u64::MAX,
        !seed.below(S::count(0)),
        forall|i: int| 0 <= i < xs.len() ==> !(#[trigger] xs[i]).below(S::count(0)),
    ensures
        !smoothed(seed, xs, period as u64).below(S::count(0)),
    decreases xs.len(),
{
    if xs.len() > 0 {
        lemma_smoothed_not_negative(seed, xs.drop_last(), period);
        lemma_period_positive::<S>(period);
        let n = S::count(period as u64);
        let before = smoothed(seed, xs.drop_last(), period as u64);
        let weighted = before.prod(n.diff(S::count(1)));
        S::law_prod(before, n.diff(S::count(1)));
        S::law_sum(weighted, xs.last());
        S::law_quot(weighted.sum(xs.last()), n);
    }
}

/// Wilder's average of numbers none of which is negative is not negative.
pub proof fn law_wilder_not_negative<S: Ordered>(xs: Seq<S>, period: int)
    requires
        1 <= period <= u64::MAX,
        period <= xs.len(),
        forall|i: int| 0 <= i < xs.len() ==> !(#[trigger] xs[i]).below(S::count(0)),
    ensures
        !wilder(xs, period).below(S::count(0)),
{
    lemma_period_positive::<S>(period);
    assert forall|i: int| 0 <= i < xs.take(period).len() implies !(#[trigger] xs.take(
        period,
    )[i]).below(S::count(0)) by {
        assert(!xs[i].below(S::count(0)));
    }
    lemma_total_not_negative(xs.take(period));
    S::law_quot(total(xs.take(period)), S::count(period as u64));
    assert forall|i: int| 0 <= i < xs.skip(period).len() implies !(#[trigger] xs.skip(
        period,
    )[i]).below(S::count(0)) by {
        assert(!xs[i + period].below(S::count(0)));
    }
    lemma_smoothed_not_negative(
        total(xs.take(period)).quot(S::count(period as u64)),
        xs.skip(period),
        period,
    );
}

/// The average true range is never negative, as long as no close is, no high
/// lies below its low, and the cap is not negative.
pub proof fn law_atr_not_negative<S: Ordered>(candles: Seq<Candle<S>>, period: int, cap_pct: S)
    requires
        1 <= period <= u64::MAX,
        !cap_pct.below(S::count(0)),
        forall|i: int|
            0 <= i < candles.len() ==> !(#[trigger] candles[i]).close.below(S::count(0))
                && !candles[i].high.below(candles[i].low),
    ensures
        !atr_of(candles, period, cap_pct).below(S::count(0)),
{
    S::law_strict(S::count(0), S::count(0));
    if candles.len() > period {
        let trs = true_ranges(candles, cap_pct);
        S::law_one();
        lemma_counts::<S>(1, 100);
        S::law_chain(S::count(0), S::count(1), S::count(100));
        assert forall|i: int| 0 <= i < trs.len() implies !(#[trigger] trs[i]).below(
            S::count(0),
        ) by {
            let p = candles[i].close;
            let c = candles[i + 1];
            S::law_size(c.high.diff(p));
            S::law_size(c.low.diff(p));
            assert(!candles[i + 1].high.below(candles[i + 1].low));
            S::law_diff(c.high, c.low);
            assert(!candles[i].close.below(S::count(0)));
            S::law_prod(p, cap_pct);
            S::law_quot(p.prod(cap_pct), S::count(100));
        }
        law_wilder_not_negative(trs, period);
    }
}

/// The larger of two is not negative where the second is a number that is not.
proof fn lemma_larger_not_negative<S: Ordered>(a: S, b: S)
    requires
        is_number(b),
        !b.below(S::count(0)),
    ensures
        !larger(a, b).below(S::count(0)),
{
    S::law_strict(a, S::count(0));
    S::law_strict(b, S::count(0));
    S::law_compare(a, S::count(0));
    S::law_compare(a, b);
    S::law_compare(b, S::count(0));
    lemma_counts::<S>(0, 0);
    S::law_chain(a, S::count(0), b);
    S::law_compare(S::count(0), b);
    S::law_strict(a, b);
}

/// The relative strength index lies between zero and a hundred, in an
/// arithmetic that tells the smallest threshold from zero.
pub proof fn law_rsi_in_range<S: Ordered>(candles: Seq<Candle<S>>, period: int)
    requires
        1 <= period <= u64::MAX,
    ensures
        !rsi_of(candles, period).below(S::count(0)),
        !S::count(100).below(rsi_of(candles, period)),
{
    let zero = S::count(0);
    let hundred = S::count(100);
    lemma_counts::<S>(0, 50);
    lemma_counts::<S>(50, 100);
    lemma_counts::<S>(0, 100);
    S::law_strict(S::count(50), zero);
    S::law_strict(hundred, S::count(50));
    S::law_strict(hundred, zero);
    S::law_strict(hundred, hundred);
    if candles.len() > period {
        let up = gains(candles);
        let down = losses(candles);
        S::law_strict(zero, zero);
        lemma_counts::<S>(0, 0);
        assert forall|i: int| 0 <= i < up.len() implies !(#[trigger] up[i]).below(zero) by {
            lemma_larger_not_negative(candles[i + 1].close.diff(candles[i].close), zero);
        }
        assert forall|i: int| 0 <= i < down.len() implies !(#[trigger] down[i]).below(zero) by {
            lemma_larger_not_negative(
                candles[i + 1].close.diff(candles[i].close).negation(),
                zero,
            );
        }
        law_wilder_not_negative(up, period);
        law_wilder_not_negative(down, period);
        lemma_strength_in_range(wilder(up, period), wilder(down, period));
    }
}

proof fn lemma_strength_in_range<S: Ordered>(gain: S, loss: S)
    requires
        !gain.below(S::count(0)),
    ensures
        !strength(gain, loss).below(S::count(0)),
        !S::count(100).below(strength(gain, loss)),
{
    let zero = S::count(0);
    let one = S::count(1);
    let hundred = S::count(100);
    lemma_counts::<S>(0, 100);
    S::law_strict(hundred, zero);
    S::law_strict(hundred, hundred);
    S::law_thresholds();
    if !loss.below(S::tiny()) {
        S::law_compare(loss, S::tiny());
        S::law_compare(zero, S::tiny());
        S::law_strict(zero, S::tiny());
        S::law_chain(zero, S::tiny(), loss);
        S::law_quot(gain, loss);
        let x = gain.quot(loss);
        let y = one.sum(x);
        S::law_sum(one, x);
        S::law_one();
        S::law_compare(y, one);
        S::law_strict(zero, one);
        S::law_compare(zero, one);
        S::law_chain(zero, one, y);
        S::law_quot(hundred, y);
        S::law_diff(hundred, hundred.quot(y));
    }
}

/// The regime and the volatility bucket are two names for the same class.
pub proof fn law_regime_matches_bucket<S: Value>(atr: S, price: S)
    ensures
        regime_of(atr, price) is Low <==> bucket_of(atr, price) == 0,
        regime_of(atr, price) is Medium <==> bucket_of(atr, price) == 1,
        regime_of(atr, price) is High <==> bucket_of(atr, price) == 2,
{
}

/// The spread lies between half a basis point and thirty.
pub proof fn law_spread_in_range<S: Ordered>(atr: S, price: S, regime: Regime)
    ensures
        !spread_of(atr, price, regime).below(ratio(5, 10)),
        !S::count(30).below(spread_of(atr, price, regime)),
{
    S::law_ratios(5, 10, 30, 1);
    S::law_ratio_of_one(30);
    law_clamped_in_range(
        atr.quot(price).prod(S::count(10_000)).prod(ratio(15, 100)).prod(spread_factor(regime)),
        ratio(5, 10),
        S::count(30),
    );
}

/// Wilder's average of zeros is zero.
proof fn lemma_wilder_of_zeros<S: Total>(xs: Seq<S>, n: int)
    requires
        1 <= n <= u64::MAX,
        n <= xs.len(),
        forall|i: int| 0 <= i < xs.len() ==> #[trigger] xs[i] == S::count(0),
    ensures
        wilder(xs, n) == S::count(0),
{
    lemma_total_of_zeros(xs.take(n));
    lemma_period_positive::<S>(n);
    S::law_zero(S::count(n as u64));
    lemma_smoothed_zeros(xs.skip(n), n as u64);
}

/// Smoothing zeros from zero on gives zero.
proof fn lemma_smoothed_zeros<S: Total>(xs: Seq<S>, n: u64)
    requires
        n >= 1,
        forall|i: int| 0 <= i < xs.len() ==> #[trigger] xs[i] == S::count(0),
    ensures
        smoothed(S::count(0), xs, n) == S::count(0),
    decreases xs.len(),
{
    if xs.len() > 0 {
        assert forall|i: int| 0 <= i < xs.drop_last().len() implies #[trigger] xs.drop_last()[i]
            == S::count(0) by {
            assert(xs[i] == S::count(0));
        }
        lemma_smoothed_zeros::<S>(xs.drop_last(), n);
        assert(xs[xs.len() - 1] == S::count(0));
        S::law_zero(S::count(n).diff(S::count(1)));
        S::law_zero(S::count(0));
        lemma_period_positive::<S>(n as int);
        S::law_zero(S::count(n));
    }
}

/// The relative strength index is a hundred where no close is under the one
/// before it, in a flat market too.
pub proof fn law_rsi_without_losses<S: Total>(candles: Seq<Candle<S>>, period: int)
    requires
        1 <= period <= u64::MAX,
        period < candles.len(),
        forall|i: int|
            0 <= i < candles.len() - 1 ==> !(#[trigger] candles[i + 1]).close.below(
                candles[i].close,
            ),
    ensures
        rsi_of(candles, period) == S::count(100),
{
    let zero = S::count(0);
    let down = losses(candles);
    assert forall|i: int| 0 <= i < down.len() implies #[trigger] down[i] == zero by {
        let gain = candles[i + 1].close.diff(candles[i].close);
        S::law_diff(candles[i + 1].close, candles[i].close);
        S::law_negation(gain);
        lemma_not_below(zero, gain.negation());
        lemma_not_below(gain.negation(), zero);
        S::law_equal(gain.negation(), zero);
        S::law_total(gain.negation());
    }
    lemma_wilder_of_zeros(down, period);
    S::law_thresholds();
}

/// Wilder's average of numbers up to a bound is up to that bound.
proof fn lemma_wilder_bounded(xs: Seq<real>, n: int, bound: real)
    requires
        1 <= n <= u64::MAX,
        n <= xs.len(),
        forall|i: int| 0 <= i < xs.len() ==> #[trigger] xs[i] <= bound,
    ensures
        wilder(xs, n) <= bound,
{
    let front = xs.take(n);
    assert forall|i: int| 0 <= i < front.len() implies #[trigger] front[i] <= bound by {
        assert(xs[i] <= bound);
    }
    lemma_total_bounded(front, bound);
    let sum = total(front);
    let m = n as real;
    assert(sum / m <= bound) by (nonlinear_arith)
        requires
            sum <= m * bound,
            m >= 1 as real,
    ;
    let rest = xs.skip(n);
    assert forall|i: int| 0 <= i < rest.len() implies #[trigger] rest[i] <= bound by {
        assert(xs[i + n] <= bound);
    }
    lemma_smoothed_bounded(sum / m, rest, n as u64, bound);
}

proof fn lemma_total_bounded(xs: Seq<real>, bound: real)
    requires
        forall|i: int| 0 <= i < xs.len() ==> #[trigger] xs[i] <= bound,
    ensures
        total(xs) <= (xs.len() as real) * bound,
    decreases xs.len(),
{
    let n = xs.len();
    if n > 0 {
        assert forall|i: int| 0 <= i < xs.drop_last().len() implies #[trigger] xs.drop_last()[i]
            <= bound by {
            assert(xs[i] <= bound);
        }
        lemma_total_bounded(xs.drop_last(), bound);
        assert(xs[n - 1] <= bound);
        let m = (n - 1) as real;
        assert((m + 1 as real) * bound == m * bound + bound) by (nonlinear_arith);
    } else {
        real::law_zero(bound);
    }
}

proof fn lemma_smoothed_bounded(seed: real, xs: Seq<real>, n: u64, bound: real)
    requires
        n >= 1,
        seed <= bound,
        forall|i: int| 0 <= i < xs.len() ==> #[trigger] xs[i] <= bound,
    ensures
        smoothed(seed, xs, n) <= bound,
    decreases xs.len(),
{
    if xs.len() > 0 {
        assert forall|i: int| 0 <= i < xs.drop_last().len() implies #[trigger] xs.drop_last()[i]
            <= bound by {
            assert(xs[i] <= bound);
        }
        lemma_smoothed_bounded(seed, xs.drop_last(), n, bound);
        let s = smoothed(seed, xs.drop_last(), n);
        let x = xs.last();
        assert(xs[xs.len() - 1] <= bound);
        let m = n as real;
        assert((s * (m - 1 as real) + x) / m <= bound) by (nonlinear_arith)
            requires
                s <= bound,
                x <= bound,
                m >= 1 as real,
        ;
    }
}

/// Without rounding, the average true range is never over the cap: `cap_pct`
/// percent of a price that no close but the last is over.
pub proof fn law_atr_within_cap(candles: Seq<Candle<real>>, period: int, cap_pct: real, top: real)
    requires
        1 <= period <= u64::MAX,
        cap_pct >= 0 as real,
        top >= 0 as real,
        forall|i: int| 0 <= i < candles.len() - 1 ==> (#[trigger] candles[i]).close <= top,
    ensures
        atr_of(candles, period, cap_pct) <= top * cap_pct / 100 as real,
{
    let bound = top * cap_pct / 100 as real;
    if candles.len() > period {
        let trs = true_ranges(candles, cap_pct);
        assert forall|i: int| 0 <= i < trs.len() implies #[trigger] trs[i] <= bound by {
            let prev = candles[i].close;
            lemma_prod_in_order(prev, top, cap_pct);
            assert(trs[i] <= prev * cap_pct / 100 as real);
            lemma_quot_in_order(prev * cap_pct, top * cap_pct, 100 as real);
        }
        lemma_wilder_bounded(trs, period, bound);
    } else {
        lemma_prod_not_negative(top, cap_pct);
    }
}

/// The numbers, each scaled.
pub open spec fn scaled(xs: Seq<real>, k: real) -> Seq<real> {
    Seq::new(xs.len(), |i: int| k * xs[i])
}

proof fn lemma_total_scaled(xs: Seq<real>, k: real)
    ensures
        total(scaled(xs, k)) == k * total(xs),
    decreases xs.len(),
{
    if xs.len() > 0 {
        assert(scaled(xs, k).drop_last() =~= scaled(xs.drop_last(), k));
        lemma_total_scaled(xs.drop_last(), k);
        let (s, x) = (total(xs.drop_last()), xs.last());
        assert(k * (s + x) == k * s + k * x) by (nonlinear_arith);
    } else {
        assert(k * 0 as real == 0 as real) by (nonlinear_arith);
    }
}

proof fn lemma_smoothed_scaled(seed: real, xs: Seq<real>, n: u64, k: real)
    requires
        n >= 1,
    ensures
        smoothed(k * seed, scaled(xs, k), n) == k * smoothed(seed, xs, n),
    decreases xs.len(),
{
    if xs.len() > 0 {
        assert(scaled(xs, k).drop_last() =~= scaled(xs.drop_last(), k));
        lemma_smoothed_scaled(seed, xs.drop_last(), n, k);
        let (s, x, m) = (smoothed(seed, xs.drop_last(), n), xs.last(), n as real);
        assert((k * s) * (m - 1 as real) + k * x == k * (s * (m - 1 as real) + x))
            by (nonlinear_arith);
        lemma_factor_out(s * (m - 1 as real) + x, m, k);
    }
}

proof fn lemma_wilder_scaled(xs: Seq<real>, n: int, k: real)
    requires
        1 <= n <= u64::MAX,
        n <= xs.len(),
    ensures
        wilder(scaled(xs, k), n) == k * wilder(xs, n),
{
    assert(scaled(xs, k).take(n) =~= scaled(xs.take(n), k));
    assert(scaled(xs, k).skip(n) =~= scaled(xs.skip(n), k));
    lemma_total_scaled(xs.take(n), k);
    lemma_factor_out(total(xs.take(n)), n as real, k);
    lemma_smoothed_scaled(total(xs.take(n)) / n as real, xs.skip(n), n as u64, k);
}

/// The candles with every price scaled.
pub open spec fn scaled_candles(candles: Seq<Candle<real>>, k: real) -> Seq<Candle<real>> {
    Seq::new(
        candles.len(),
        |i: int|
            Candle {
                open: k * candles[i].open,
                high: k * candles[i].high,
                low: k * candles[i].low,
                close: k * candles[i].close,
            },
    )
}

proof fn lemma_true_range_scaled(prev: real, c: Candle<real>, cap_pct: real, k: real)
    requires
        k > 0 as real,
    ensures
        true_range(
            k * prev,
            Candle { open: k * c.open, high: k * c.high, low: k * c.low, close: k * c.close },
            cap_pct,
        ) == k * true_range(prev, c, cap_pct),
{
    let (a, b, d) = (c.high - c.low, c.high - prev, c.low - prev);
    assert(k * c.high - k * c.low == k * a) by (nonlinear_arith)
        requires
            a == c.high - c.low,
    ;
    assert(k * c.high - k * prev == k * b) by (nonlinear_arith)
        requires
            b == c.high - prev,
    ;
    assert(k * c.low - k * prev == k * d) by (nonlinear_arith)
        requires
            d == c.low - prev,
    ;
    lemma_size_scaled(b, k);
    lemma_size_scaled(d, k);
    let e = prev * cap_pct;
    assert((k * prev) * cap_pct == k * e) by (nonlinear_arith)
        requires
            e == prev * cap_pct,
    ;
    lemma_factor_out(e, 100 as real, k);
    let cap = e / 100 as real;
    lemma_order_scaled(a, b.size(), k);
    lemma_order_scaled(larger(a, b.size()), d.size(), k);
    lemma_order_scaled(larger(larger(a, b.size()), d.size()), cap, k);
    lemma_order_scaled(cap, larger(larger(a, b.size()), d.size()), k);
}

proof fn lemma_size_scaled(x: real, k: real)
    requires
        k > 0 as real,
    ensures
        (k * x).size() == k * x.size(),
{
    assert((k * x < 0 as real <==> x < 0 as real) && -(k * x) == k * (-x)) by (nonlinear_arith)
        requires
            k > 0 as real,
    ;
}

proof fn lemma_order_scaled(a: real, b: real, k: real)
    requires
        k > 0 as real,
    ensures
        (k * a < k * b) <==> a < b,
        larger(k * a, k * b) == k * larger(a, b),
{
    assert((k * a < k * b) <==> a < b) by (nonlinear_arith)
        requires
            k > 0 as real,
    ;
}

/// Without rounding, the average true range scales with the prices.
pub proof fn law_atr_scales(candles: Seq<Candle<real>>, period: int, cap_pct: real, k: real)
    requires
        1 <= period <= u64::MAX,
        k > 0 as real,
    ensures
        atr_of(scaled_candles(candles, k), period, cap_pct) == k * atr_of(candles, period, cap_pct),
{
    if candles.len() > period {
        let trs = true_ranges(candles, cap_pct);
        let all = scaled_candles(candles, k);
        assert forall|i: int| 0 <= i < trs.len() implies #[trigger] true_ranges(all, cap_pct)[i]
            == k * trs[i] by {
            lemma_true_range_scaled(candles[i].close, candles[i + 1], cap_pct, k);
        }
        assert(true_ranges(all, cap_pct) =~= scaled(trs, k));
        lemma_wilder_scaled(trs, period, k);
    } else {
        assert(k * 0 as real == 0 as real) by (nonlinear_arith);
    }
}

/// The candles with every close mirrored.
pub open spec fn mirrored(candles: Seq<Candle<real>>, k: real) -> Seq<Candle<real>> {
    Seq::new(candles.len(), |i: int| Candle { close: k - candles[i].close, ..candles[i] })
}

/// Without rounding, mirrored moves give the mirrored index: where neither is
/// taken for a hundred, the two add up to a hundred.
pub proof fn law_rsi_mirrors(candles: Seq<Candle<real>>, period: int, k: real)
    requires
        1 <= period <= u64::MAX,
        period < candles.len(),
        rsi_of(candles, period) != 100 as real,
        rsi_of(mirrored(candles, k), period) != 100 as real,
    ensures
        rsi_of(candles, period) + rsi_of(mirrored(candles, k), period) == 100 as real,
{
    let other = mirrored(candles, k);
    assert(gains(other) =~= losses(candles));
    assert(losses(other) =~= gains(candles));
    let (g, l) = (wilder(gains(candles), period), wilder(losses(candles), period));
    real::law_thresholds();
    let (x, y) = (100 as real / (1 as real + g / l), 100 as real / (1 as real + l / g));
    assert(x + y == 100 as real) by (nonlinear_arith)
        requires
            g > 0 as real,
            l > 0 as real,
            x == 100 as real / (1 as real + g / l),
            y == 100 as real / (1 as real + l / g),
    ;
}

/// The average true range does not look at the open prices.
pub proof fn law_atr_ignores_opens<S: Value>(
    a: Seq<Candle<S>>,
    b: Seq<Candle<S>>,
    period: int,
    cap_pct: S,
)
    requires
        a.len() == b.len(),
        forall|i: int|
            0 <= i < a.len() ==> (#[trigger] a[i]) == (Candle { open: a[i].open, ..b[i] }),
    ensures
        atr_of(a, period, cap_pct) == atr_of(b, period, cap_pct),
{
    if a.len() == 0 {
        assert(a =~= b);
    } else if a.len() > period {
        let (x, y) = (true_ranges(a, cap_pct), true_ranges(b, cap_pct));
        assert forall|i: int| 0 <= i < x.len() implies x[i] == y[i] by {
            assert(a[i] == (Candle { open: a[i].open, ..b[i] }));
            assert(a[i + 1] == (Candle { open: a[i + 1].open, ..b[i + 1] }));
        }
        assert(x =~= y);
    }
}

// In fixed point
/// The sum of numbers up to a bound.
proof fn lemma_fixed_total_bounded(xs: Seq<Fixed>, bound: int)
    requires
        bound >= 0,
        forall|i: int| 0 <= i < xs.len() ==> (#[trigger] xs[i]).units <= bound,
    ensures
        total(xs).units <= xs.len() * bound,
    decreases xs.len(),
{
    if xs.len() > 0 {
        let front = xs.drop_last();
        assert forall|i: int| 0 <= i < front.len() implies (#[trigger] front[i]).units <= bound by {
            assert(xs[i].units <= bound);
        }
        lemma_fixed_total_bounded(front, bound);
        assert(xs[xs.len() - 1].units <= bound);
        let n = front.len() as int;
        assert((n + 1) * bound == n * bound + bound && 0 <= n * bound) by (nonlinear_arith)
            requires
                n >= 0,
                bound >= 0,
        ;
    } else {
        assert(0 * bound == 0) by (nonlinear_arith);
    }
}

/// Smoothing numbers from zero to a bound stays there: each step is the rounded
/// down average of the number so far, taken often, and the next.
proof fn lemma_fixed_smoothed(seed: Fixed, xs: Seq<Fixed>, n: u64, bound: int)
    requires
        0 < n * SCALE <= i64::MAX,
        0 <= seed.units <= bound,
        bound <= i64::MAX,
        forall|i: int| 0 <= i < xs.len() ==> 0 <= (#[trigger] xs[i]).units <= bound,
    ensures
        0 <= smoothed(seed, xs, n).units <= bound,
        xs.len() > 0 && n * bound <= i64::MAX ==> smoothed(seed, xs, n).units == (smoothed(
            seed,
            xs.drop_last(),
            n,
        ).units * (n - 1) + xs.last().units) / n as int,
    decreases xs.len(),
{
    if xs.len() > 0 {
        let front = xs.drop_last();
        assert forall|i: int| 0 <= i < front.len() implies 0 <= (#[trigger] front[i]).units
            <= bound by {
            assert(0 <= xs[i].units <= bound);
        }
        lemma_fixed_smoothed(seed, front, n, bound);
        let (s, x) = (smoothed(seed, front, n), xs.last());
        assert(0 <= xs[xs.len() - 1].units <= bound);
        let m = (n - 1) as u64;
        assert(Fixed::count(n).diff(Fixed::count(1)) == Fixed::count(m));
        lemma_prod_by_count(s, m);
        let (u, v) = (s.units as int, x.units as int);
        assert(0 <= u * m <= bound * m && bound * m + bound == n * bound) by (nonlinear_arith)
            requires
                0 <= u <= bound,
                m + 1 == n,
        ;
        let sum = s.prod(Fixed::count(m)).sum(x);
        lemma_quot_by_count(sum, n);
        let w = sum.units as int;
        assert(0 <= w / n as int <= bound) by (nonlinear_arith)
            requires
                0 <= w <= n * bound,
                n > 0,
        ;
    }
}

/// Wilder's average of numbers from zero to a bound stays there.
proof fn lemma_fixed_wilder_bounded(xs: Seq<Fixed>, n: int, bound: int)
    requires
        0 < n * SCALE <= i64::MAX,
        n <= xs.len(),
        0 <= bound <= i64::MAX,
        forall|i: int| 0 <= i < xs.len() ==> 0 <= (#[trigger] xs[i]).units <= bound,
    ensures
        0 <= wilder(xs, n).units <= bound,
{
    let (front, rest) = (xs.take(n), xs.skip(n));
    assert forall|i: int| 0 <= i < front.len() implies 0 <= (#[trigger] front[i]).units
        <= bound by {
        assert(0 <= xs[i].units <= bound);
    }
    assert forall|i: int| 0 <= i < rest.len() implies 0 <= (#[trigger] rest[i]).units <= bound by {
        assert(0 <= xs[i + n].units <= bound);
    }
    lemma_fixed_total_bounded(front, bound);
    assert forall|i: int| 0 <= i < front.len() implies !(#[trigger] front[i]).below(
        Fixed::count(0),
    ) by {
        assert(0 <= front[i].units);
    }
    lemma_total_not_negative(front);
    let sum = total(front);
    lemma_quot_by_count(sum, n as u64);
    let w = sum.units as int;
    assert(0 <= w / n <= bound) by (nonlinear_arith)
        requires
            0 <= w <= n * bound,
            n > 0,
    ;
    lemma_fixed_smoothed(sum.quot(Fixed::count(n as u64)), rest, n as u64, bound);
}

/// In fixed point too, the average true range is never over the cap: `cap_pct`
/// percent of a price that no close but the last is over.
pub proof fn law_fixed_atr_within_cap(
    candles: Seq<Candle<Fixed>>,
    period: int,
    cap_pct: Fixed,
    top: Fixed,
)
    requires
        0 < period * SCALE <= i64::MAX,
        cap_pct.units >= 0,
        top.units >= 0,
        forall|i: int|
            0 <= i < candles.len() - 1 ==> 0 <= (#[trigger] candles[i]).close.units <= top.units,
    ensures
        !atr_of(candles, period, cap_pct).below(Fixed::count(0)),
        !top.prod(cap_pct).quot(Fixed::count(100)).below(atr_of(candles, period, cap_pct)),
{
    let hundred = Fixed::count(100);
    let bound = top.prod(cap_pct).quot(hundred);
    Fixed::law_prod(top, cap_pct);
    Fixed::law_quot(top.prod(cap_pct), hundred);
    if candles.len() > period {
        let trs = true_ranges(candles, cap_pct);
        assert forall|i: int| 0 <= i < trs.len() implies 0 <= (#[trigger] trs[i]).units
            <= bound.units by {
            let prev = candles[i].close;
            let c = candles[i + 1];
            Fixed::law_monotone(top, prev, cap_pct);
            Fixed::law_monotone(top.prod(cap_pct), prev.prod(cap_pct), hundred);
            Fixed::law_prod(prev, cap_pct);
            Fixed::law_quot(prev.prod(cap_pct), hundred);
            Fixed::law_size(c.low.diff(prev));
        }
        lemma_fixed_wilder_bounded(trs, period, bound.units as int);
    }
}

/// A number of units taken `k` times.
pub open spec fn multiple(x: Fixed, k: int) -> Fixed {
    capped(k * x.units)
}

/// The candles with every price multiplied.
pub open spec fn multiplied_candles(candles: Seq<Candle<Fixed>>, k: int) -> Seq<Candle<Fixed>> {
    Seq::new(
        candles.len(),
        |i: int|
            Candle {
                open: multiple(candles[i].open, k),
                high: multiple(candles[i].high, k),
                low: multiple(candles[i].low, k),
                close: multiple(candles[i].close, k),
            },
    )
}

/// Whether numbers in fixed point are the multiples of others but for a gap.
pub open spec fn is_near_multiple(x: Fixed, y: Fixed, k: int, gap: int) -> bool {
    0 <= y.units - k * x.units <= gap
}

/// The true range of multiplied prices is the multiple, but for the rounding of
/// its cap.
proof fn lemma_true_range_multiplied(
    prev: Fixed,
    c: Candle<Fixed>,
    cap_pct: Fixed,
    k: int,
    top: int,
)
    requires
        k >= 1,
        0 <= prev.units <= top,
        0 <= c.high.units <= top,
        0 <= c.low.units <= top,
        k * top <= i64::MAX,
        cap_pct.units >= 0,
        k * top * cap_pct.units <= i64::MAX * SCALE,
    ensures
        ({
            let d = Candle {
                open: multiple(c.open, k),
                high: multiple(c.high, k),
                low: multiple(c.low, k),
                close: multiple(c.close, k),
            };
            let x = true_range(prev, c, cap_pct);
            let y = true_range(multiple(prev, k), d, cap_pct);
            &&& is_near_multiple(x, y, k, k - 1)
            &&& 0 <= x.units <= top
            &&& 0 <= y.units <= k * top
        }),
{
    let (p, h, l, u) = (
        prev.units as int,
        c.high.units as int,
        c.low.units as int,
        cap_pct.units as int,
    );
    let s = SCALE as int;
    assert(0 <= k * p <= k * top && 0 <= k * h <= k * top && 0 <= k * l <= k * top && k * (h - l)
        == k * h - k * l && k * (h - p) == k * h - k * p && k * (l - p) == k * l - k * p && k * -(h
        - p) == k * p - k * h && k * -(l - p) == k * p - k * l) by (nonlinear_arith)
        requires
            k >= 1,
            0 <= p <= top,
            0 <= h <= top,
            0 <= l <= top,
    ;
    assert(top <= k * top) by (nonlinear_arith)
        requires
            k >= 1,
            0 <= top,
    ;
    let (pu, big) = (p * u, (k * p) * u);
    assert(big == k * pu && 0 <= pu <= big && big <= k * top * u) by (nonlinear_arith)
        requires
            pu == p * u,
            big == (k * p) * u,
            0 <= u,
            0 <= p,
            k * p <= k * top,
            k >= 1,
    ;
    lemma_floor_of_multiple(pu, big, s, k, 0);
    let (a, b) = (pu / s, big / s);
    assert(0 <= a <= i64::MAX && 0 <= b <= i64::MAX) by (nonlinear_arith)
        requires
            a == pu / s,
            b == big / s,
            0 <= pu <= big,
            big <= i64::MAX * s,
            s == 10_000_000,
    ;
    assert(b - k * a <= k - 1) by (nonlinear_arith)
        requires
            s * (b - k * a) <= k * (s - 1),
            s == 10_000_000,
            k >= 1,
    ;
    lemma_quot_by_count(prev.prod(cap_pct), 100);
    lemma_quot_by_count(multiple(prev, k).prod(cap_pct), 100);
    lemma_floor_of_multiple(a, b, 100, k, k - 1);
    let (e, f) = (a / 100, b / 100);
    let x = true_range(prev, c, cap_pct);
    let y = true_range(multiple(prev, k), Candle {
        open: multiple(c.open, k),
        high: multiple(c.high, k),
        low: multiple(c.low, k),
        close: multiple(c.close, k),
    }, cap_pct);
    let size = |v: int| if v < 0 { -v } else { v };
    let max = |v: int, w: int| if v < w { w } else { v };
    let r = max(max(h - l, size(h - p)), size(l - p));
    let q = max(max(k * h - k * l, size(k * h - k * p)), size(k * l - k * p));
    assert(0 <= r <= top);
    assert(q == k * r) by {
        assert((h - l < size(h - p)) <==> (k * (h - l) < k * size(h - p))) by (nonlinear_arith)
            requires
                k >= 1,
        ;
        let m = max(h - l, size(h - p));
        assert((m < size(l - p)) <==> (k * m < k * size(l - p))) by (nonlinear_arith)
            requires
                k >= 1,
        ;
        assert((h - p < 0) <==> (k * (h - p) < 0)) by (nonlinear_arith)
            requires
                k >= 1,
        ;
        assert((l - p < 0) <==> (k * (l - p) < 0)) by (nonlinear_arith)
            requires
                k >= 1,
        ;
    }
    assert(x.units == if e < r { e } else { r });
    assert(y.units == if f < q { f } else { q });
    assert(0 <= k * r <= k * top && (e < r ==> k * e + k <= k * r) && (e >= r ==> k * r <= k * e))
        by (nonlinear_arith)
        requires
            k >= 1,
            0 <= r <= top,
    ;
}

/// Whether numbers stand for others multiplied: each from zero to a bound, and the
/// multiple but for less than `k` units.
pub open spec fn are_multiples(xs: Seq<Fixed>, ys: Seq<Fixed>, k: int, top: int) -> bool {
    &&& xs.len() == ys.len()
    &&& forall|i: int|
        0 <= i < xs.len() ==> 0 <= (#[trigger] xs[i]).units <= top && 0 <= ys[i].units <= k * top
            && is_near_multiple(xs[i], ys[i], k, k - 1)
}

proof fn lemma_total_multiplied(xs: Seq<Fixed>, ys: Seq<Fixed>, k: int, top: int)
    requires
        k >= 1,
        are_multiples(xs, ys, k, top),
        xs.len() * (k * top) <= i64::MAX,
        0 <= top <= k * top,
    ensures
        0 <= total(xs).units <= xs.len() * top,
        0 <= total(ys).units <= xs.len() * (k * top),
        is_near_multiple(total(xs), total(ys), k, xs.len() * (k - 1)),
    decreases xs.len(),
{
    let kt = k * top;
    if xs.len() > 0 {
        let (a, b) = (xs.drop_last(), ys.drop_last());
        let n = a.len() as int;
        assert forall|i: int| 0 <= i < a.len() implies 0 <= (#[trigger] a[i]).units <= top && 0
            <= b[i].units <= k * top && is_near_multiple(a[i], b[i], k, k - 1) by {
            assert(is_near_multiple(xs[i], ys[i], k, k - 1));
        }
        assert((n + 1) * kt == n * kt + kt && (n + 1) * top == n * top + top && (n + 1) * (k - 1)
            == n * (k - 1) + (k - 1) && 0 <= n * top <= n * kt) by (nonlinear_arith)
            requires
                n >= 0,
                0 <= top <= kt,
        ;
        lemma_total_multiplied(a, b, k, top);
        assert(is_near_multiple(xs[n], ys[n], k, k - 1));
        let (s, x) = (total(a).units as int, xs[n].units as int);
        assert(k * (s + x) == k * s + k * x) by (nonlinear_arith);
    } else {
        assert(0 * kt == 0 && 0 * top == 0 && 0 * (k - 1) == 0 && k * 0 == 0) by (nonlinear_arith);
    }
}

proof fn lemma_smoothed_multiplied(
    seed: Fixed,
    other: Fixed,
    xs: Seq<Fixed>,
    ys: Seq<Fixed>,
    n: u64,
    k: int,
    top: int,
)
    requires
        k >= 1,
        are_multiples(xs, ys, k, top),
        0 < n * SCALE <= i64::MAX,
        n * (k * top) <= i64::MAX,
        0 <= top <= k * top,
        0 <= seed.units <= top,
        0 <= other.units <= k * top,
        is_near_multiple(seed, other, k, k * n - 1),
    ensures
        is_near_multiple(smoothed(seed, xs, n), smoothed(other, ys, n), k, k * n - 1),
    decreases xs.len(),
{
    if xs.len() > 0 {
        let (a, b) = (xs.drop_last(), ys.drop_last());
        assert forall|i: int| 0 <= i < a.len() implies 0 <= (#[trigger] a[i]).units <= top && 0
            <= b[i].units <= k * top && is_near_multiple(a[i], b[i], k, k - 1) by {
            assert(is_near_multiple(xs[i], ys[i], k, k - 1));
        }
        lemma_smoothed_multiplied(seed, other, a, b, n, k, top);
        assert(is_near_multiple(xs[xs.len() - 1], ys[ys.len() - 1], k, k - 1));
        let kt = k * top;
        assert(top <= i64::MAX && kt <= i64::MAX && n * top <= n * kt) by (nonlinear_arith)
            requires
                n >= 1,
                n * kt <= i64::MAX,
                0 <= top <= kt,
        ;
        assert forall|i: int| 0 <= i < ys.len() implies 0 <= (#[trigger] ys[i]).units <= kt by {
            assert(is_near_multiple(xs[i], ys[i], k, k - 1));
        }
        lemma_fixed_smoothed(seed, xs, n, top);
        lemma_fixed_smoothed(other, ys, n, kt);
        let (s, x) = (smoothed(seed, a, n).units as int, xs.last().units as int);
        let (t, y) = (smoothed(other, b, n).units as int, ys.last().units as int);
        let (d, e) = (t - k * s, y - k * x);
        let m = n as int;
        let (u, v) = (s * (m - 1) + x, t * (m - 1) + y);
        let gap = (k * m - 1) * (m - 1) + (k - 1);
        assert(v - k * u == d * (m - 1) + e && 0 <= d * (m - 1) <= (k * m - 1) * (m - 1))
            by (nonlinear_arith)
            requires
                d == t - k * s,
                e == y - k * x,
                u == s * (m - 1) + x,
                v == t * (m - 1) + y,
                0 <= d <= k * m - 1,
                m >= 1,
        ;
        lemma_floor_of_multiple(u, v, m, k, gap);
        let r = v / m - k * (u / m);
        assert(gap + k * (m - 1) == m * (k * m - 1)) by (nonlinear_arith)
            requires
                gap == (k * m - 1) * (m - 1) + (k - 1),
        ;
        assert(r <= k * m - 1) by (nonlinear_arith)
            requires
                m * r <= m * (k * m - 1),
                m >= 1,
        ;
    }
}

/// In fixed point, the average true range of multiplied prices is the multiple but
/// for the period, taken `k` times, in units: that much the rounding down of every
/// step can lose, as long as no step is at the end of the range.
pub proof fn law_fixed_atr_scales(
    candles: Seq<Candle<Fixed>>,
    period: int,
    cap_pct: Fixed,
    k: int,
    top: int,
)
    requires
        k >= 1,
        0 < period * SCALE <= i64::MAX,
        cap_pct.units >= 0,
        period * (k * top) <= i64::MAX,
        k * top * cap_pct.units <= i64::MAX * SCALE,
        forall|i: int|
            0 <= i < candles.len() ==> {
                let c = #[trigger] candles[i];
                0 <= c.high.units <= top && 0 <= c.low.units <= top && 0 <= c.close.units <= top
            },
    ensures
        is_near_multiple(
            atr_of(candles, period, cap_pct),
            atr_of(multiplied_candles(candles, k), period, cap_pct),
            k,
            k * period - 1,
        ),
{
    assert(k * period >= 1 && k * 0 == 0) by (nonlinear_arith)
        requires
            k >= 1,
            period >= 1,
    ;
    if candles.len() > period {
        let all = multiplied_candles(candles, k);
        let (xs, ys) = (true_ranges(candles, cap_pct), true_ranges(all, cap_pct));
        let kt = k * top;
        let c = candles[0];
        assert(0 <= c.high.units <= top);
        assert(0 <= top <= kt && kt <= i64::MAX) by (nonlinear_arith)
            requires
                0 <= top,
                kt == k * top,
                k >= 1,
                period >= 1,
                period * kt <= i64::MAX,
        ;
        assert forall|i: int| 0 <= i < xs.len() implies 0 <= (#[trigger] xs[i]).units <= top && 0
            <= ys[i].units <= k * top && is_near_multiple(xs[i], ys[i], k, k - 1) by {
            let (b, d) = (candles[i], candles[i + 1]);
            assert(0 <= b.close.units <= top && 0 <= d.high.units <= top);
            lemma_true_range_multiplied(b.close, d, cap_pct, k, top);
        }
        let (a, b) = (xs.take(period), ys.take(period));
        assert forall|i: int| 0 <= i < a.len() implies 0 <= (#[trigger] a[i]).units <= top && 0
            <= b[i].units <= k * top && is_near_multiple(a[i], b[i], k, k - 1) by {
            assert(is_near_multiple(xs[i], ys[i], k, k - 1));
        }
        let (f, g) = (xs.skip(period), ys.skip(period));
        assert forall|i: int| 0 <= i < f.len() implies 0 <= (#[trigger] f[i]).units <= top && 0
            <= g[i].units <= k * top && is_near_multiple(f[i], g[i], k, k - 1) by {
            assert(is_near_multiple(xs[i + period], ys[i + period], k, k - 1));
        }
        lemma_total_multiplied(a, b, k, top);
        let (s, t) = (total(a), total(b));
        lemma_quot_by_count(s, period as u64);
        lemma_quot_by_count(t, period as u64);
        let (u, v) = (s.units as int, t.units as int);
        lemma_floor_of_multiple(u, v, period, k, period * (k - 1));
        let r = v / period - k * (u / period);
        assert(period * (k - 1) + k * (period - 1) <= period * (k * period - 1) + (period - 1))
            by (nonlinear_arith)
            requires
                period >= 1,
                k >= 1,
        ;
        assert(r <= k * period - 1) by (nonlinear_arith)
            requires
                period * r <= period * (k * period - 1) + (period - 1),
                period >= 1,
        ;
        assert(0 <= u / period <= top && 0 <= v / period <= kt) by (nonlinear_arith)
            requires
                0 <= u <= period * top,
                0 <= v <= period * kt,
                period >= 1,
        ;
        lemma_smoothed_multiplied(
            s.quot(Fixed::count(period as u64)),
            t.quot(Fixed::count(period as u64)),
            f,
            g,
            period as u64,
            k,
            top,
        );
    }
}

/// The candles with every close mirrored, in fixed point.
pub open spec fn mirrored_fixed(candles: Seq<Candle<Fixed>>, k: Fixed) -> Seq<Candle<Fixed>> {
    Seq::new(candles.len(), |i: int| Candle { close: k.diff(candles[i].close), ..candles[i] })
}

/// A hundred over one and a ratio is off by less than one unit downwards and by no
/// more than a hundred units upwards.
proof fn lemma_fixed_strength(g: Fixed, l: Fixed)
    requires
        g.units >= 1,
        l.units >= 1,
    ensures
        ({
            let x = 100 * SCALE - strength(g, l).units;
            let sum = g.units + l.units;
            (x - 100) * sum <= 100 * SCALE * l.units < (x + 1) * sum
        }),
{
    let (a, b, s) = (g.units as int, l.units as int, SCALE as int);
    let q = (a * s) / b;
    lemma_fundamental_div_mod(a * s, b);
    assert(0 <= q) by (nonlinear_arith)
        requires
            q == (a * s) / b,
            a * s >= 0,
            b > 0,
    ;
    let d = Fixed::count(1).sum(g.quot(l)).units as int;
    let n = (100 * s) * s;
    let x = n / d;
    lemma_fundamental_div_mod(n, d);
    assert(0 <= x <= 100 * s) by (nonlinear_arith)
        requires
            x == n / d,
            n == (100 * s) * s,
            d >= s,
            s > 0,
    ;
    assert(100 * SCALE - strength(g, l).units == x);
    let sum = a + b;
    if s + q <= i64::MAX {
        assert(d == s + q);
        assert(b * d <= s * sum < b * (d + 1)) by (nonlinear_arith)
            requires
                d == s + q,
                a * s == b * q + (a * s) % b,
                0 <= (a * s) % b < b,
                sum == a + b,
        ;
        assert(x * d <= n && n < (x + 1) * d) by (nonlinear_arith)
            requires
                n == d * x + n % d,
                0 <= n % d < d,
        ;
        assert((100 * s) * b < (x + 1) * sum) by (nonlinear_arith)
            requires
                n == (100 * s) * s,
                n < (x + 1) * d,
                b * d <= s * sum,
                s > 0,
                b > 0,
                x >= 0,
                d > 0,
        {
            assert(n * b < (x + 1) * d * b);
            assert((x + 1) * (b * d) <= (x + 1) * (s * sum));
            assert(((100 * s) * b) * s < ((x + 1) * sum) * s);
        }
        assert((x - 100) * sum <= (100 * s) * b) by (nonlinear_arith)
            requires
                n == (100 * s) * s,
                x * d <= n,
                s * sum < b * (d + 1),
                d >= s,
                0 <= x,
                s > 0,
                b > 0,
                sum >= b,
        {
            assert(x * (s * sum) <= x * (b * (d + 1)));
            assert(x * (b * (d + 1)) == b * (x * d) + b * x);
            assert(b * (x * d) <= b * n);
            assert(x * s <= x * d);
            assert(x * s <= (100 * s) * s);
            assert(x <= 100 * s);
            assert(b * x <= b * (100 * s));
            assert(b * (100 * s) <= sum * (100 * s));
            assert((x * sum) * s <= ((100 * s) * b) * s + (100 * sum) * s);
            assert(x * sum <= (100 * s) * b + 100 * sum);
        }
    } else {
        assert(d == i64::MAX);
        assert(x == 0);
        assert((100 * s) * b < sum) by (nonlinear_arith)
            requires
                s + q > i64::MAX,
                b * q <= a * s,
                sum == a + b,
                s == 10_000_000,
                b > 0,
        {
            assert(b * (s + q) <= s * sum);
            assert(b * (i64::MAX + 1) <= b * (s + q));
            assert(b * (i64::MAX + 1) <= s * sum);
        }
        assert((0 - 100) * sum <= (100 * s) * b) by (nonlinear_arith)
            requires
                sum > 0,
                b > 0,
                s > 0,
        ;
    }
}

/// In fixed point, mirrored moves give the mirrored index but for rounding: where
/// there are gains and losses, the two add up to a hundred but for two hundred units
/// downwards and two units upwards.
pub proof fn law_fixed_rsi_mirrors(candles: Seq<Candle<Fixed>>, period: int, k: Fixed)
    requires
        1 <= period <= u64::MAX,
        period < candles.len(),
        forall|i: int|
            0 <= i < candles.len() ==> 0 <= (#[trigger] candles[i]).close.units <= k.units,
        Fixed::tiny().at_most(wilder(gains(candles), period)),
        Fixed::tiny().at_most(wilder(losses(candles), period)),
    ensures
        100 * SCALE - 200 <= rsi_of(candles, period).units + rsi_of(
            mirrored_fixed(candles, k),
            period,
        ).units <= 100 * SCALE + 2,
{
    let other = mirrored_fixed(candles, k);
    assert forall|i: int| 0 <= i < candles.len() - 1 implies gains(other)[i] == losses(candles)[i]
        && losses(other)[i] == gains(candles)[i] by {
        let (a, b) = (candles[i].close, candles[i + 1].close);
        assert(0 <= a.units <= k.units && 0 <= b.units <= k.units);
        assert(other[i].close.units == k.units - a.units);
        assert(other[i + 1].close.units == k.units - b.units);
    }
    assert(gains(other) =~= losses(candles));
    assert(losses(other) =~= gains(candles));
    let (g, l) = (wilder(gains(candles), period), wilder(losses(candles), period));
    lemma_fixed_strength(g, l);
    lemma_fixed_strength(l, g);
    let (x, y) = (100 * SCALE - strength(g, l).units, 100 * SCALE - strength(l, g).units);
    let (a, b) = (g.units as int, l.units as int);
    let sum = a + b;
    let h = 100 * SCALE as int;
    assert(h - 2 <= x + y <= h + 200) by (nonlinear_arith)
        requires
            (x - 100) * sum <= h * b,
            h * b < (x + 1) * sum,
            (y - 100) * sum <= h * a,
            h * a < (y + 1) * sum,
            sum == a + b,
            sum > 0,
    {
        assert((x + y - 200) * sum <= h * sum);
        assert(h * sum < (x + y + 2) * sum);
    }
}

} // verus!
