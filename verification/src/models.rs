//! The types that the modules share: market data, grid levels, trades, copy
//! signals and followers.
use vstd::prelude::*;

use vstd::arithmetic::div_mod::lemma_fundamental_div_mod;

use crate::fixed::{Fixed, SCALE};
use crate::number::{clamp, law_clamped_in_range, lemma_clamped_in_order, lemma_counts};
use crate::number::{clamped, larger, lemma_not_below, lemma_not_below_chain, ratio, smaller, total};
use crate::number::{lit, max_of, min_of, Number, Ordered, Total, Value};

verus! {

// Messages of the exchange
/// A trade of the aggregated-trade stream.
#[derive(Debug, Clone)]
pub struct WsTrade {
    pub price: String,
    pub trade_time: u64,
}

/// An order update of the user data stream.
#[derive(Debug, Clone)]
pub struct WsExecutionReport {
    pub event_type: String,
    pub symbol: String,
    pub order_id: u64,
    pub side: String,
    pub status: String,
    pub last_qty: String,
    pub last_price: String,
    pub commission: String,
    pub commission_asset: Option<String>,
}

/// A candle as the exchange sends it: open time, open, high, low, close,
/// volume, close time, quote volume, number of trades, taker buy volumes in
/// base and quote, and an unused field.
#[derive(Debug, Clone)]
pub struct RawKline(
    pub u64,
    pub String,
    pub String,
    pub String,
    pub String,
    pub String,
    pub u64,
    pub String,
    pub u64,
    pub String,
    pub String,
    pub String,
);

// Core enums
#[derive(Debug, Clone, Copy, PartialEq, Eq, Structural)]
pub enum Trend {
    Up,
    Down,
    Neutral,
}

#[derive(Debug, Clone, Copy, PartialEq, Eq, Structural)]
pub enum Regime {
    Low,
    Medium,
    High,
}

#[derive(Debug, Clone, Copy, PartialEq, Eq, Structural)]
pub enum Side {
    Buy,
    Sell,
}

impl Side {
    /// The exchange's word for the side.
    pub open spec fn word(self) -> Seq<char> {
        match self {
            Side::Buy => "BUY"@,
            Side::Sell => "SELL"@,
        }
    }

    pub fn binance_str(&self) -> (r: &'static str)
        ensures
            r@ == self.word(),
    {
        match self {
            Side::Buy => "BUY",
            Side::Sell => "SELL",
        }
    }
}

/// The trend by the averages over nine and twenty-one candles; it drives the
/// position size and the grid spacing.
#[derive(Debug, Clone, Copy, PartialEq, Eq, Structural)]
pub enum TrendSignal {
    Bullish,
    Caution,
    Bearish,
}

impl TrendSignal {
    /// The factor on the position size.
    pub open spec fn position_factor<S: Value>(self) -> S {
        match self {
            TrendSignal::Bullish => ratio(120, 100),
            TrendSignal::Caution => ratio(85, 100),
            TrendSignal::Bearish => ratio(70, 100),
        }
    }

    /// The factor on the grid spacing.
    pub open spec fn spacing_factor<S: Value>(self) -> S {
        match self {
            TrendSignal::Bullish => ratio(90, 100),
            TrendSignal::Caution => ratio(1, 1),
            TrendSignal::Bearish => ratio(135, 100),
        }
    }

    /// The text shown for the signal.
    pub open spec fn caption(self) -> Seq<char> {
        match self {
            TrendSignal::Bullish => "🟢 BULLISH"@,
            TrendSignal::Caution => "🟡 CAUTION"@,
            TrendSignal::Bearish => "🔴 BEARISH"@,
        }
    }

    pub fn position_mult<S: Number>(&self) -> (r: S)
        ensures
            r == self.position_factor::<S>(),
    {
        match self {
            TrendSignal::Bullish => lit(120, 100),
            TrendSignal::Caution => lit(85, 100),
            TrendSignal::Bearish => lit(70, 100),
        }
    }

    pub fn spacing_mult<S: Number>(&self) -> (r: S)
        ensures
            r == self.spacing_factor::<S>(),
    {
        match self {
            TrendSignal::Bullish => lit(90, 100),
            TrendSignal::Caution => lit(1, 1),
            TrendSignal::Bearish => lit(135, 100),
        }
    }

    pub fn label(&self) -> (r: &'static str)
        ensures
            r@ == self.caption(),
    {
        match self {
            TrendSignal::Bullish => "🟢 BULLISH",
            TrendSignal::Caution => "🟡 CAUTION",
            TrendSignal::Bearish => "🔴 BEARISH",
        }
    }
}

/// Whether live trading goes on. A pause ends at a time on the caller's
/// millisecond clock.
#[derive(Debug, Clone)]
pub enum TradingStatus {
    Active,
    PausedUntil(u64),
    SafetySwitchTripped { reason: String },
}

impl TradingStatus {
    /// The word for the status.
    pub open spec fn word(self) -> Seq<char> {
        match self {
            TradingStatus::Active => "ACTIVE"@,
            TradingStatus::PausedUntil(_) => "PAUSED"@,
            TradingStatus::SafetySwitchTripped { .. } => "TRIPPED"@,
        }
    }

    pub fn is_active(&self) -> (r: bool)
        ensures
            r == (self is Active),
    {
        matches!(self, TradingStatus::Active)
    }

    pub fn is_tripped(&self) -> (r: bool)
        ensures
            r == (self is SafetySwitchTripped),
    {
        matches!(self, TradingStatus::SafetySwitchTripped { .. })
    }

    pub fn label(&self) -> (r: &str)
        ensures
            r@ == self.word(),
    {
        match self {
            TradingStatus::Active => "ACTIVE",
            TradingStatus::PausedUntil(_) => "PAUSED",
            TradingStatus::SafetySwitchTripped { .. } => "TRIPPED",
        }
    }
}

// Candles
#[derive(Debug, Clone, Copy)]
pub struct Candle<S> {
    pub open: S,
    pub high: S,
    pub low: S,
    pub close: S,
}

impl<S: Value> Candle<S> {
    /// High less low.
    pub open spec fn range(self) -> S {
        self.high.diff(self.low)
    }

    /// The body as a share of the range; one where there is no range.
    pub open spec fn body_share(self) -> S {
        if self.range().below(S::tiny()) {
            S::count(1)
        } else {
            clamped(self.close.diff(self.open).size().quot(self.range()), S::count(0), S::count(1))
        }
    }

    /// What the body leaves of the range.
    pub open spec fn wick_share(self) -> S {
        S::count(1).diff(self.body_share())
    }

    /// The wick above the body as a share of the range; zero where there is no
    /// range.
    pub open spec fn upper_wick_share(self) -> S {
        if self.range().below(S::tiny()) {
            S::count(0)
        } else {
            self.high.diff(larger(self.close, self.open)).quot(self.range())
        }
    }

    /// The wick below the body as a share of the range; zero where there is no
    /// range.
    pub open spec fn lower_wick_share(self) -> S {
        if self.range().below(S::tiny()) {
            S::count(0)
        } else {
            smaller(self.close, self.open).diff(self.low).quot(self.range())
        }
    }

    /// Whether the wicks take more than sixty percent of the range.
    pub open spec fn has_long_wick(self) -> bool {
        ratio::<S>(60, 100).below(self.wick_share())
    }
}

impl<S: Number> Candle<S> {
    /// Body size as a fraction of the total range: zero for a doji, one for a
    /// marubozu.
    pub fn body_ratio(&self) -> (r: S)
        ensures
            r == self.body_share(),
    {
        let body = self.close.minus(self.open).abs();
        let range = self.high.minus(self.low);
        if range.lt(S::epsilon()) {
            return S::from_u64(1);
        }
        clamp(body.over(range), S::from_u64(0), S::from_u64(1))
    }

    pub fn wick_ratio(&self) -> (r: S)
        ensures
            r == self.wick_share(),
    {
        S::from_u64(1).minus(self.body_ratio())
    }

    pub fn upper_wick_pct(&self) -> (r: S)
        ensures
            r == self.upper_wick_share(),
    {
        let range = self.high.minus(self.low);
        if range.lt(S::epsilon()) {
            return S::from_u64(0);
        }
        self.high.minus(max_of(self.close, self.open)).over(range)
    }

    pub fn lower_wick_pct(&self) -> (r: S)
        ensures
            r == self.lower_wick_share(),
    {
        let range = self.high.minus(self.low);
        if range.lt(S::epsilon()) {
            return S::from_u64(0);
        }
        min_of(self.close, self.open).minus(self.low).over(range)
    }
}

/// How wicked the latest candles were; it scales the slippage.
#[derive(Debug, Clone, Copy)]
pub struct WickProfile<S> {
    pub avg_wick_ratio: S,
    /// Candles whose wicks take more than sixty percent of the range.
    pub long_wick_count: usize,
}

/// The number of candles with a long wick.
pub open spec fn long_wicks<S: Value>(candles: Seq<Candle<S>>) -> nat
    decreases candles.len(),
{
    if candles.len() == 0 {
        0
    } else {
        long_wicks(candles.drop_last()) + if candles.last().has_long_wick() {
            1nat
        } else {
            0nat
        }
    }
}

/// The wick shares of the candles, in order.
pub open spec fn wick_shares<S: Value>(candles: Seq<Candle<S>>) -> Seq<S> {
    Seq::new(candles.len(), |i: int| candles[i].wick_share())
}

impl<S: Value> WickProfile<S> {
    /// The profile of a market without candles.
    pub open spec fn none() -> WickProfile<S> {
        WickProfile { avg_wick_ratio: S::count(0), long_wick_count: 0 }
    }

    /// The profile of the candles: the mean wick share and how many wicks are
    /// long.
    pub open spec fn of(candles: Seq<Candle<S>>) -> WickProfile<S> {
        if candles.len() == 0 {
            WickProfile::none()
        } else {
            WickProfile {
                avg_wick_ratio: total(wick_shares(candles)).quot(S::count(candles.len() as u64)),
                long_wick_count: long_wicks(candles) as usize,
            }
        }
    }

    /// The factor on the base slippage.
    pub open spec fn slippage_factor(self) -> S {
        let boost = clamped(self.avg_wick_ratio.prod(S::count(3)), S::count(0), S::count(2));
        let share = S::count(self.long_wick_count as u64).quot(S::count(20));
        clamped(
            S::count(1).sum(boost).sum(share.prod(ratio(15, 10))),
            S::count(1),
            S::count(5),
        )
    }
}

impl<S: Number> WickProfile<S> {
    pub fn from_candles(candles: &[Candle<S>]) -> (r: Self)
        ensures
            r == WickProfile::of(candles@),
            candles@.len() > 0 ==> r.long_wick_count == long_wicks(candles@),
    {
        if candles.len() == 0 {
            return WickProfile { avg_wick_ratio: S::from_u64(0), long_wick_count: 0 };
        }
        let mut acc = S::from_u64(0);
        let mut count: usize = 0;
        let mut i: usize = 0;
        assert(wick_shares(candles@).take(0) =~= Seq::empty());
        while i < candles.len()
            invariant
                i <= candles.len(),
                count <= i,
                acc == total(wick_shares(candles@).take(i as int)),
                count == long_wicks(candles@.take(i as int)),
            decreases candles.len() - i,
        {
            let w = candles[i].wick_ratio();
            assert(wick_shares(candles@).take(i + 1).drop_last() =~= wick_shares(candles@).take(
                i as int,
            ));
            assert(candles@.take(i + 1).drop_last() =~= candles@.take(i as int));
            acc = acc.plus(w);
            if lit::<S>(60, 100).lt(w) {
                count += 1;
            }
            i += 1;
        }
        assert(wick_shares(candles@).take(i as int) =~= wick_shares(candles@));
        assert(candles@.take(i as int) =~= candles@);
        WickProfile {
            avg_wick_ratio: acc.over(S::from_u64(candles.len() as u64)),
            long_wick_count: count,
        }
    }

    /// The multiplier of at least one that goes on top of the base slippage.
    pub fn slippage_mult(&self) -> (r: S)
        ensures
            r == self.slippage_factor(),
    {
        let wick_boost = clamp(
            self.avg_wick_ratio.times(S::from_u64(3)),
            S::from_u64(0),
            S::from_u64(2),
        );
        let long_pct = S::from_u64(self.long_wick_count as u64).over(S::from_u64(20));
        let raw = S::from_u64(1).plus(wick_boost).plus(long_pct.times(lit(15, 10)));
        clamp(raw, S::from_u64(1), S::from_u64(5))
    }
}

/// What the engine knows of the market.
#[derive(Debug, Clone, Copy)]
pub struct MarketState<S> {
    pub price: S,
    pub atr: S,
    pub rsi: S,
    pub ema9: S,
    pub ema20: S,
    pub ema21: S,
    pub ema50: S,
    pub trend: Trend,
    pub trend_signal: TrendSignal,
    pub regime: Regime,
    pub spread_bps: S,
    pub wick_profile: WickProfile<S>,
}

/// One order level of a grid.
#[derive(Debug, Clone, Copy)]
pub struct GridLevel<S> {
    pub price: S,
    pub side: Side,
    pub profit_pct: S,
    pub distance: S,
    pub atr_dist: S,
}

/// A trade that was made.
#[derive(Debug, Clone)]
pub struct TradeRecord<S> {
    pub id: String,
    pub time: String,
    pub side: Side,
    pub symbol: String,
    pub price: S,
    pub exec_price: S,
    pub qty: S,
    pub value_usdt: S,
    pub slippage: S,
    pub slip_mult: S,
    pub trend_signal: String,
    pub binance_oid: Option<u64>,
}

impl<S: Number> TradeRecord<S> {
    /// A copy of the record.
    pub fn duplicate(&self) -> (r: Self)
        ensures
            r == *self,
    {
        TradeRecord {
            id: self.id.clone(),
            time: self.time.clone(),
            side: self.side,
            symbol: self.symbol.clone(),
            price: self.price,
            exec_price: self.exec_price,
            qty: self.qty,
            value_usdt: self.value_usdt,
            slippage: self.slippage,
            slip_mult: self.slip_mult,
            trend_signal: self.trend_signal.clone(),
            binance_oid: self.binance_oid,
        }
    }
}

/// A signal for the followers.
#[derive(Debug, Clone)]
pub struct TradeSignal<S> {
    pub master_id: String,
    pub symbol: String,
    pub side: String,
    pub price: S,
    /// The share of the follower's capital to use.
    pub qty_pct: S,
    pub timestamp: String,
    /// The keyed hash that shows where the signal comes from.
    pub signal_hash: String,
}

impl<S: Number> TradeSignal<S> {
    /// A copy of the signal.
    pub fn duplicate(&self) -> (r: Self)
        ensures
            r == *self,
    {
        TradeSignal {
            master_id: self.master_id.clone(),
            symbol: self.symbol.clone(),
            side: self.side.clone(),
            price: self.price,
            qty_pct: self.qty_pct,
            timestamp: self.timestamp.clone(),
            signal_hash: self.signal_hash.clone(),
        }
    }
}

/// Someone who copies the trades.
#[derive(Debug, Clone)]
pub struct Follower {
    pub id: String,
    pub webhook_url: String,
    pub active: bool,
    /// The last day that is paid for, as an ISO date.
    pub paid_until: String,
    pub total_trades: u64,
    pub registered: String,
}

/// What one profit target gave in the backtest.
#[derive(Debug, Clone, Copy)]
pub struct OptResult<S> {
    pub profit_target_pct: S,
    pub final_value: S,
    pub net_pnl_pct: S,
    pub total_trades: usize,
    pub max_drawdown_pct: S,
    pub sharpe_ratio: S,
    pub calmar_ratio: S,
}

/// The volatility class of an average range at a price: under 0.8 percent,
/// under two percent, or more.
pub open spec fn bucket_of<S: Value>(atr: S, price: S) -> u8 {
    let r = atr.quot(price);
    if r.below(ratio(8, 1000)) {
        0
    } else if r.below(ratio(20, 1000)) {
        1
    } else {
        2
    }
}

pub fn regime_bucket<S: Number>(atr: S, price: S) -> (r: u8)
    ensures
        r == bucket_of(atr, price),
{
    let r = atr.over(price);
    if r.lt(lit(8, 1000)) {
        0
    } else if r.lt(lit(20, 1000)) {
        1
    } else {
        2
    }
}

/// The slippage multiplier lies between one and five.
pub proof fn law_slippage_factor_in_range<S: Ordered>(p: WickProfile<S>)
    ensures
        !p.slippage_factor().below(S::count(1)),
        !S::count(5).below(p.slippage_factor()),
{
    lemma_counts::<S>(1, 5);
    let boost = clamped(p.avg_wick_ratio.prod(S::count(3)), S::count(0), S::count(2));
    let share = S::count(p.long_wick_count as u64).quot(S::count(20));
    law_clamped_in_range(
        S::count(1).sum(boost).sum(share.prod(ratio(15, 10))),
        S::count(1),
        S::count(5),
    );
}

/// A candle's body takes between none and all of its range.
pub proof fn law_body_share_in_unit_range<S: Ordered>(c: Candle<S>)
    ensures
        !c.body_share().below(S::count(0)),
        !S::count(1).below(c.body_share()),
{
    lemma_counts::<S>(0, 1);
    S::law_strict(S::count(1), S::count(1));
    S::law_strict(S::count(1), S::count(0));
    if !c.range().below(S::tiny()) {
        law_clamped_in_range(
            c.close.diff(c.open).size().quot(c.range()),
            S::count(0),
            S::count(1),
        );
    }
}

/// The wicks of a candle take between none and all of its range.
pub proof fn law_wick_share_in_unit_range<S: Ordered>(c: Candle<S>)
    ensures
        !c.wick_share().below(S::count(0)),
        !S::count(1).below(c.wick_share()),
{
    law_body_share_in_unit_range(c);
    S::law_diff(S::count(1), c.body_share());
}

/// Without wicks the slippage is the base slippage.
pub proof fn law_no_wicks_no_factor<S: Total>()
    ensures
        WickProfile::<S>::none().slippage_factor() == S::count(1),
{
    let zero = S::count(0);
    lemma_counts::<S>(0, 2);
    lemma_counts::<S>(0, 20);
    lemma_counts::<S>(1, 5);
    S::law_one();
    lemma_counts::<S>(1, 20);
    S::law_chain(zero, S::count(1), S::count(20));
    S::law_zero(S::count(3));
    S::law_zero(S::count(20));
    S::law_zero(ratio(15, 10));
    S::law_zero(S::count(1));
    S::law_strict(zero, zero);
    S::law_strict(S::count(2), zero);
    S::law_strict(S::count(1), S::count(1));
    S::law_strict(S::count(5), S::count(1));
}

/// The slippage multiplier grows with the wicks.
pub proof fn law_slippage_factor_grows<S: Total>(p: WickProfile<S>, q: WickProfile<S>)
    requires
        !q.avg_wick_ratio.below(p.avg_wick_ratio),
        p.long_wick_count <= q.long_wick_count,
    ensures
        !q.slippage_factor().below(p.slippage_factor()),
{
    let zero = S::count(0);
    let one = S::count(1);
    let (n, m) = (S::count(p.long_wick_count as u64), S::count(q.long_wick_count as u64));
    lemma_counts::<S>(0, 3);
    lemma_counts::<S>(0, 2);
    lemma_counts::<S>(1, 5);
    lemma_counts::<S>(1, 20);
    lemma_counts::<S>(p.long_wick_count as u64, q.long_wick_count as u64);
    S::law_one();
    S::law_chain(zero, one, S::count(20));
    S::law_strict(S::count(3), zero);
    S::law_strict(S::count(2), zero);
    S::law_strict(S::count(5), one);
    S::law_strict(m, n);
    S::law_positive_ratio(15, 10);
    S::law_strict(zero, ratio(15, 10));
    let (a, b) = (p.avg_wick_ratio.prod(S::count(3)), q.avg_wick_ratio.prod(S::count(3)));
    S::law_monotone(q.avg_wick_ratio, p.avg_wick_ratio, S::count(3));
    lemma_clamped_in_order(b, a, zero, S::count(2));
    let (c, d) = (clamped(a, zero, S::count(2)), clamped(b, zero, S::count(2)));
    S::law_monotone(d, c, one);
    let (s, t) = (n.quot(S::count(20)), m.quot(S::count(20)));
    S::law_monotone(m, n, S::count(20));
    S::law_monotone(t, s, ratio(15, 10));
    let (u, v) = (s.prod(ratio(15, 10)), t.prod(ratio(15, 10)));
    S::law_monotone(one.sum(d), one.sum(c), u);
    S::law_monotone(v, u, one.sum(d));
    lemma_not_below_chain(one.sum(d).sum(v), one.sum(d).sum(u), one.sum(c).sum(u));
    lemma_clamped_in_order(one.sum(d).sum(v), one.sum(c).sum(u), one, S::count(5));
}

/// The bucket of the volatility does not fall as the range grows.
pub proof fn law_bucket_grows_with_range<S: Total>(less: S, more: S, price: S)
    requires
        !more.below(less),
        S::count(0).below(price),
    ensures
        bucket_of(less, price) <= bucket_of(more, price),
{
    let (r, s) = (less.quot(price), more.quot(price));
    let (calm, wild) = (ratio::<S>(8, 1000), ratio::<S>(20, 1000));
    S::law_monotone(more, less, price);
    lemma_not_below(s, r);
    S::law_chain(r, s, calm);
    S::law_chain(r, s, wild);
    S::law_ratios(8, 1000, 20, 1000);
    S::law_chain(r, calm, wild);
    S::law_strict(r, calm);
}

/// Without rounding, body and wicks add up to the whole range of a candle whose
/// prices lie in it.
pub proof fn law_shares_add_up(c: Candle<real>)
    requires
        c.low <= c.open <= c.high,
        c.low <= c.close <= c.high,
        !c.range().below(real::tiny()),
    ensures
        c.body_share() + c.upper_wick_share() + c.lower_wick_share() == 1 as real,
        c.wick_share() == c.upper_wick_share() + c.lower_wick_share(),
{
    let range = c.range();
    let body = c.close.diff(c.open).size();
    let upper = c.high - larger(c.close, c.open);
    let lower = smaller(c.close, c.open) - c.low;
    assert(body + upper + lower == range);
    assert(body / range + upper / range + lower / range == 1 as real && 0 as real <= body / range
        <= 1 as real) by (nonlinear_arith)
        requires
            body + upper + lower == range,
            range > 0 as real,
            body >= 0 as real,
            upper >= 0 as real,
            lower >= 0 as real,
    ;
}

/// A candle that opens and closes at one price is all wick, one that runs from end
/// to end is all body, and one without a range counts as all body.
pub proof fn law_doji_and_marubozu<S: Total>(c: Candle<S>)
    ensures
        !c.range().below(S::tiny()) && c.open == c.close ==> c.body_share() == S::count(0)
            && c.wick_share() == S::count(1),
        !c.range().below(S::tiny()) && ((c.open == c.low && c.close == c.high) || (c.open == c.high
            && c.close == c.low)) ==> c.body_share() == S::count(1) && c.wick_share()
            == S::count(0),
        c.range().below(S::tiny()) ==> c.body_share() == S::count(1) && c.wick_share() == S::count(
            0,
        ),
{
    let (zero, one) = (S::count(0), S::count(1));
    let range = c.range();
    S::law_zero(one);
    S::law_one();
    S::law_strict(zero, one);
    S::law_strict(zero, zero);
    S::law_strict(one, one);
    if !range.below(S::tiny()) {
        S::law_thresholds();
        lemma_not_below(range, S::tiny());
        S::law_chain(zero, S::tiny(), range);
        S::law_strict(zero, range);
        S::law_zero(range);
        S::law_zero(c.open);
        S::law_unit(range);
        S::law_opposite(zero, zero);
        S::law_opposite(range, zero);
        S::law_opposite(c.high, c.low);
        lemma_one_without_zero::<S>();
    }
}

/// Nothing taken from one leaves one.
proof fn lemma_one_without_zero<S: Total>()
    ensures
        S::count(1).diff(S::count(0)) == S::count(1),
{
    let (zero, one) = (S::count(0), S::count(1));
    S::law_strict(zero, zero);
    S::law_opposite(one, zero);
    S::law_negation(zero);
    lemma_not_below(zero, zero.negation());
    lemma_not_below(zero.negation(), zero);
    S::law_equal(zero.negation(), zero);
    S::law_zero(one);
}

/// Which of open and close is the higher does not matter to the body.
pub proof fn law_body_has_no_direction<S: Total>(c: Candle<S>)
    ensures
        (Candle { open: c.close, close: c.open, ..c }).body_share() == c.body_share(),
        (Candle { open: c.close, close: c.open, ..c }).wick_share() == c.wick_share(),
{
    S::law_opposite(c.close, c.open);
}

/// In fixed point, body and wicks add up to the whole range but for two units, the
/// most that rounding down three shares can lose.
pub proof fn law_fixed_shares_add_up(c: Candle<Fixed>)
    requires
        c.low.units <= c.open.units <= c.high.units,
        c.low.units <= c.close.units <= c.high.units,
        0 < c.high.units - c.low.units <= i64::MAX,
    ensures
        SCALE - 2 <= c.body_share().units + c.upper_wick_share().units + c.lower_wick_share().units
            <= SCALE,
{
    let range = c.high.units - c.low.units;
    let body = if c.close.units < c.open.units {
        c.open.units - c.close.units
    } else {
        c.close.units - c.open.units
    };
    let upper = c.high.units - larger(c.close, c.open).units;
    let lower = smaller(c.close, c.open).units - c.low.units;
    assert(body + upper + lower == range);
    let s = SCALE as int;
    let (x, y, z) = ((body * s) / range, (upper * s) / range, (lower * s) / range);
    lemma_fundamental_div_mod(body * s, range);
    lemma_fundamental_div_mod(upper * s, range);
    lemma_fundamental_div_mod(lower * s, range);
    assert(s - 3 < x + y + z <= s && 0 <= x <= s && 0 <= y <= s && 0 <= z <= s)
        by (nonlinear_arith)
        requires
            range > 0,
            s > 0,
            body >= 0,
            upper >= 0,
            lower >= 0,
            body + upper + lower == range,
            body * s == range * x + (body * s) % range,
            upper * s == range * y + (upper * s) % range,
            lower * s == range * z + (lower * s) % range,
            0 <= (body * s) % range < range,
            0 <= (upper * s) % range < range,
            0 <= (lower * s) % range < range,
    {
        assert((body + upper + lower) * s == body * s + upper * s + lower * s);
        assert(range * s == range * (x + y + z) + (body * s) % range + (upper * s) % range + (
        lower * s) % range);
        assert(range * (s - (x + y + z)) < 3 * range);
        assert(range * (s - (x + y + z)) >= 0);
        assert(body * s <= range * s && upper * s <= range * s && lower * s <= range * s);
        assert(range * x <= range * s && range * y <= range * s && range * z <= range * s);
        assert(range * (x + 1) > 0 && range * (y + 1) > 0 && range * (z + 1) > 0);
    }
}

} // verus!
