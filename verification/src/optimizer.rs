//! The fast backtest and the search for the best profit target.
use std::collections::HashSet;
use vstd::prelude::*;

use crate::analyzer::{atr_of, MarketAnalyzer};
use crate::config::BotConfig;
use crate::exact::lemma_quot_undone;
use crate::fixed::{Fixed, SCALE};
use crate::models::{Candle, OptResult};
use crate::number::{is_number, larger, lit, max_of, min_of, ratio, smaller, sum_of};
use crate::number::{lemma_counts, lemma_not_below, lemma_total_of_zeros, lemma_total_push, total};
use crate::number::{Number, Ordered, Total, Value};
use crate::paper::{key_of, PaperTrader};

verus! {

broadcast use vstd::std_specs::hash::group_hash_axioms;

/// The candles of an average range in the backtest.
pub const ATR_WINDOW: usize = 14;

/// What keeps the keys of sell levels apart from those of buy levels.
pub const SELL_KEY_OFFSET: u64 = 1_000_000_000;

/// The ticks of a day.
pub const DAY_TICKS: usize = 1440;

/// The outcome of a backtest.
#[derive(Debug, Clone)]
pub struct BtRun<S> {
    pub final_val: S,
    pub max_dd: S,
    pub total_trades: usize,
    pub daily_rets: Vec<S>,
}

/// A backtest under way.
pub ghost struct Kernel<S> {
    pub usdt: S,
    pub base: S,
    pub peak: S,
    pub max_dd: S,
    pub trades: int,
    pub buys: Set<u64>,
    pub sells: Set<u64>,
    pub rets: Seq<S>,
    pub day_val: S,
    /// The profit target or the safety switch was reached.
    pub stopped: bool,
}

/// The average range at a tick: over the candles of the window where they are
/// there, and at least three per mille of the price; half a percent of the
/// price while the window fills.
pub open spec fn kernel_atr<S: Value>(
    candles: Seq<Candle<S>>,
    i: int,
    price: S,
    cap_pct: S,
) -> S {
    if i + 1 >= ATR_WINDOW && i < candles.len() {
        larger(
            atr_of(candles.subrange(i + 1 - ATR_WINDOW, i + 1), ATR_WINDOW - 1, cap_pct),
            price.prod(ratio(3, 1000)),
        )
    } else {
        price.prod(ratio(5, 1000))
    }
}

/// The distance between the levels of the backtest.
pub open spec fn kernel_step<S: Value>(atr: S, grid_levels: usize) -> S {
    atr.prod(ratio(18, 10)).quot(S::count(grid_levels as u64).quot(S::count(2)))
}

/// The value of one trade of the backtest.
pub open spec fn kernel_position<S: Value>(cfg: BotConfig<S>) -> S {
    cfg.total_capital.prod(cfg.max_single_trade_pct)
}

/// A buy at a level, unless it is filled or the money does not suffice.
pub open spec fn kernel_buy<S: Value>(k: Kernel<S>, gp: S, cfg: BotConfig<S>) -> Kernel<S> {
    let pos = kernel_position(cfg);
    if !k.buys.contains(key_of(gp)) && pos.at_most(k.usdt) {
        Kernel {
            usdt: k.usdt.diff(pos),
            base: k.base.sum(pos.quot(gp.prod(S::count(1).sum(cfg.slippage_pct)))),
            buys: k.buys.insert(key_of(gp)),
            trades: k.trades + 1,
            ..k
        }
    } else {
        k
    }
}

/// The key of a sell level.
pub open spec fn sell_key<S: Value>(sp: S) -> u64 {
    key_of(sp).wrapping_add(SELL_KEY_OFFSET)
}

/// A sell at a level, unless it is filled or nothing is held.
pub open spec fn kernel_sell<S: Value>(k: Kernel<S>, sp: S, cfg: BotConfig<S>) -> Kernel<S> {
    if !k.sells.contains(sell_key(sp)) && S::count(0).below(k.base) {
        let qty = smaller(k.base, kernel_position(cfg).quot(sp));
        Kernel {
            usdt: k.usdt.sum(qty.prod(sp.prod(S::count(1).diff(cfg.slippage_pct)))),
            base: k.base.diff(qty),
            sells: k.sells.insert(sell_key(sp)),
            trades: k.trades + 1,
            ..k
        }
    } else {
        k
    }
}

/// The first `n` pairs of levels at a tick, nearest first, the buy of a pair
/// before the sell.
pub open spec fn kernel_levels<S: Value>(
    k: Kernel<S>,
    price: S,
    step: S,
    n: nat,
    cfg: BotConfig<S>,
) -> Kernel<S>
    decreases n,
{
    if n == 0 {
        k
    } else {
        let before = kernel_levels(k, price, step, (n - 1) as nat, cfg);
        let off = S::count(n as u64).prod(step);
        kernel_sell(kernel_buy(before, price.diff(off), cfg), price.sum(off), cfg)
    }
}

/// The rebuilt grid has no level filled.
pub open spec fn kernel_rebuild<S: Value>(k: Kernel<S>, i: int, ticks: u64) -> Kernel<S> {
    if i % ticks as int == 0 {
        Kernel { buys: Set::empty(), sells: Set::empty(), ..k }
    } else {
        k
    }
}

/// The peak, the drawdown, the stop and the daily return at the end of a tick.
pub open spec fn kernel_close<S: Value>(
    k: Kernel<S>,
    i: int,
    price: S,
    cfg: BotConfig<S>,
    profit_target: S,
) -> Kernel<S> {
    let cap = cfg.total_capital;
    let val = k.usdt.sum(k.base.prod(price));
    let peak = if k.peak.below(val) {
        val
    } else {
        k.peak
    };
    let dd = peak.diff(val).quot(peak).prod(S::count(100));
    let max_dd = if k.max_dd.below(dd) {
        dd
    } else {
        k.max_dd
    };
    let pft = val.diff(cap).quot(cap).prod(S::count(100));
    if profit_target.at_most(pft) || cfg.max_drawdown_pct.prod(ratio(15, 10)).at_most(dd) {
        Kernel { peak, max_dd, stopped: true, ..k }
    } else if i % DAY_TICKS as int == 0 && i > 0 {
        Kernel {
            peak,
            max_dd,
            rets: k.rets.push(
                val.diff(k.day_val).quot(larger(k.day_val, S::slight())),
            ),
            day_val: val,
            ..k
        }
    } else {
        Kernel { peak, max_dd, ..k }
    }
}

/// One tick of the backtest.
pub open spec fn kernel_tick<S: Value>(
    k: Kernel<S>,
    candles: Seq<Candle<S>>,
    i: int,
    price: S,
    cfg: BotConfig<S>,
    profit_target: S,
) -> Kernel<S> {
    let atr = kernel_atr(candles, i, price, cfg.atr_outlier_cap_pct);
    let step = kernel_step(atr, cfg.grid_levels);
    let fresh = kernel_rebuild(k, i, cfg.grid_rebuild_ticks);
    kernel_close(
        kernel_levels(fresh, price, step, (cfg.grid_levels / 2) as nat, cfg),
        i,
        price,
        cfg,
        profit_target,
    )
}

/// The backtest before its first tick.
pub open spec fn kernel_start<S: Value>(cfg: BotConfig<S>) -> Kernel<S> {
    Kernel {
        usdt: cfg.total_capital,
        base: S::count(0),
        peak: cfg.total_capital,
        max_dd: S::count(0),
        trades: 0,
        buys: Set::empty(),
        sells: Set::empty(),
        rets: Seq::empty(),
        day_val: cfg.total_capital,
        stopped: false,
    }
}

/// The backtest after the first `n` ticks; after a stop nothing happens.
pub open spec fn kernel_after<S: Value>(
    candles: Seq<Candle<S>>,
    prices: Seq<S>,
    n: nat,
    cfg: BotConfig<S>,
    profit_target: S,
) -> Kernel<S>
    decreases n,
{
    if n == 0 {
        kernel_start(cfg)
    } else {
        let k = kernel_after(candles, prices, (n - 1) as nat, cfg, profit_target);
        if k.stopped {
            k
        } else {
            kernel_tick(k, candles, n - 1, prices[n - 1], cfg, profit_target)
        }
    }
}

/// The value at the end, at the last price whether or not the backtest stopped
/// before it.
pub open spec fn kernel_value<S: Value>(k: Kernel<S>, prices: Seq<S>) -> S {
    k.usdt.sum(
        k.base.prod(
            if prices.len() == 0 {
                S::count(0)
            } else {
                prices.last()
            },
        ),
    )
}

/// Whether a run is the outcome of a backtest.
pub open spec fn is_outcome<S: Value>(
    run: BtRun<S>,
    candles: Seq<Candle<S>>,
    prices: Seq<S>,
    cfg: BotConfig<S>,
    profit_target: S,
) -> bool {
    let k = kernel_after(candles, prices, prices.len(), cfg, profit_target);
    &&& run.final_val == kernel_value(k, prices)
    &&& run.max_dd == k.max_dd
    &&& run.total_trades == k.trades
    &&& run.daily_rets@ == k.rets
}

/// Nothing happens after a stop.
proof fn lemma_stopped<S: Value>(
    candles: Seq<Candle<S>>,
    prices: Seq<S>,
    n: nat,
    m: nat,
    cfg: BotConfig<S>,
    profit_target: S,
)
    requires
        n <= m,
        kernel_after(candles, prices, n, cfg, profit_target).stopped,
    ensures
        kernel_after(candles, prices, m, cfg, profit_target) == kernel_after(
            candles,
            prices,
            n,
            cfg,
            profit_target,
        ),
    decreases m - n,
{
    if n < m {
        lemma_stopped(candles, prices, n, (m - 1) as nat, cfg, profit_target);
    }
}

/// A tick makes at most two trades at each pair of levels.
proof fn lemma_trades<S: Value>(k: Kernel<S>, price: S, step: S, n: nat, cfg: BotConfig<S>)
    ensures
        k.trades <= kernel_levels(k, price, step, n, cfg).trades <= k.trades + 2 * n,
    decreases n,
{
    if n > 0 {
        lemma_trades(k, price, step, (n - 1) as nat, cfg);
    }
}

/// A backtest under way, as it is run.
struct KernelState<S> {
    usdt: S,
    base: S,
    peak: S,
    max_dd: S,
    trades: usize,
    buys: HashSet<u64>,
    sells: HashSet<u64>,
    rets: Vec<S>,
    day_val: S,
    stopped: bool,
}

impl<S: Value> KernelState<S> {
    spec fn model(self) -> Kernel<S> {
        Kernel {
            usdt: self.usdt,
            base: self.base,
            peak: self.peak,
            max_dd: self.max_dd,
            trades: self.trades as int,
            buys: self.buys@,
            sells: self.sells@,
            rets: self.rets@,
            day_val: self.day_val,
            stopped: self.stopped,
        }
    }
}

impl<S: Number> KernelState<S> {
    /// Tries the levels of one tick.
    fn levels(&mut self, price: S, step: S, cfg: &BotConfig<S>)
        requires
            old(self).trades + 2 * (cfg.grid_levels / 2) <= usize::MAX,
        ensures
            final(self).model() == kernel_levels(
                old(self).model(),
                price,
                step,
                (cfg.grid_levels / 2) as nat,
                *cfg,
            ),
    {
        let pos = cfg.total_capital.times(cfg.max_single_trade_pct);
        let half = cfg.grid_levels / 2;
        let mut lv: usize = 0;
        while lv < half
            invariant
                lv <= half,
                half == cfg.grid_levels / 2,
                pos == kernel_position(*cfg),
                old(self).trades + 2 * half <= usize::MAX,
                self.model() == kernel_levels(old(self).model(), price, step, lv as nat, *cfg),
            decreases half - lv,
        {
            proof {
                lemma_trades(old(self).model(), price, step, lv as nat, *cfg);
            }
            lv += 1;
            let off = S::from_u64(lv as u64).times(step);
            let gp = price.minus(off);
            let bkey = PaperTrader::key(gp);
            let ghost before = self.model();
            if !self.buys.contains(&bkey) && pos.le(self.usdt) {
                let exec = gp.times(S::from_u64(1).plus(cfg.slippage_pct));
                let qty = pos.over(exec);
                self.usdt = self.usdt.minus(pos);
                self.base = self.base.plus(qty);
                self.buys.insert(bkey);
                self.trades += 1;
            }
            assert(self.model() == kernel_buy(before, gp, *cfg));
            let sp = price.plus(off);
            let skey = PaperTrader::key(sp).wrapping_add(SELL_KEY_OFFSET);
            if !self.sells.contains(&skey) && S::from_u64(0).lt(self.base) {
                let exec = sp.times(S::from_u64(1).minus(cfg.slippage_pct));
                let sell_q = min_of(self.base, pos.over(sp));
                self.usdt = self.usdt.plus(sell_q.times(exec));
                self.base = self.base.minus(sell_q);
                self.sells.insert(skey);
                self.trades += 1;
            }
        }
    }

    /// Ends a tick.
    fn close(&mut self, i: usize, price: S, cfg: &BotConfig<S>, profit_target: S)
        ensures
            final(self).model() == kernel_close(
                old(self).model(),
                i as int,
                price,
                *cfg,
                profit_target,
            ),
    {
        let cap = cfg.total_capital;
        let hundred = S::from_u64(100);
        let val = self.usdt.plus(self.base.times(price));
        if self.peak.lt(val) {
            self.peak = val;
        }
        let dd = self.peak.minus(val).over(self.peak).times(hundred);
        if self.max_dd.lt(dd) {
            self.max_dd = dd;
        }
        let pft = val.minus(cap).over(cap).times(hundred);
        if profit_target.le(pft) || cfg.max_drawdown_pct.times(lit(15, 10)).le(dd) {
            self.stopped = true;
        } else if i % DAY_TICKS == 0 && i > 0 {
            self.rets.push(
                val.minus(self.day_val).over(max_of(self.day_val, S::billionth())),
            );
            self.day_val = val;
        }
    }
}

/// The backtest of a profit target: a grid around every price, with ranges from
/// the candles.
pub fn backtest_kernel<S: Number>(
    candles: &[Candle<S>],
    prices: &[S],
    cfg: &BotConfig<S>,
    profit_target: S,
) -> (r: BtRun<S>)
    requires
        cfg.grid_rebuild_ticks > 0 || prices@.len() == 0,
        prices@.len() * (2 * (cfg.grid_levels / 2)) <= usize::MAX,
    ensures
        is_outcome(r, candles@, prices@, *cfg, profit_target),
{
    let mut k = KernelState {
        usdt: cfg.total_capital,
        base: S::from_u64(0),
        peak: cfg.total_capital,
        max_dd: S::from_u64(0),
        trades: 0,
        buys: HashSet::new(),
        sells: HashSet::new(),
        rets: Vec::new(),
        day_val: cfg.total_capital,
        stopped: false,
    };
    let ghost pairs = 2 * (cfg.grid_levels / 2);
    let mut i: usize = 0;
    assert(0 * pairs == 0);
    while i < prices.len() && !k.stopped
        invariant
            i <= prices@.len(),
            cfg.grid_rebuild_ticks > 0 || prices@.len() == 0,
            pairs == 2 * (cfg.grid_levels / 2),
            prices@.len() * pairs <= usize::MAX,
            k.trades <= i * pairs,
            k.model() == kernel_after(candles@, prices@, i as nat, *cfg, profit_target),
        decreases prices.len() - i,
    {
        let price = prices[i];
        let atr = if i + 1 >= ATR_WINDOW && i < candles.len() {
            let window = vstd::slice::slice_subrange(candles, i + 1 - ATR_WINDOW, i + 1);
            max_of(
                MarketAnalyzer::calc_atr(window, ATR_WINDOW - 1, cfg.atr_outlier_cap_pct),
                price.times(lit(3, 1000)),
            )
        } else {
            price.times(lit(5, 1000))
        };
        let step = atr.times(lit(18, 10)).over(
            S::from_u64(cfg.grid_levels as u64).over(S::from_u64(2)),
        );
        let ghost before = k.model();
        if (i as u64) % cfg.grid_rebuild_ticks == 0 {
            k.buys.clear();
            k.sells.clear();
        }
        assert(k.model() == kernel_rebuild(before, i as int, cfg.grid_rebuild_ticks));
        proof {
            assert(i * pairs + pairs == (i + 1) * pairs) by (nonlinear_arith);
            assert((i + 1) * pairs <= prices@.len() * pairs) by (nonlinear_arith)
                requires
                    i + 1 <= prices@.len(),
                    0 <= pairs,
            ;
            lemma_trades(k.model(), price, step, (cfg.grid_levels / 2) as nat, *cfg);
        }
        k.levels(price, step, cfg);
        k.close(i, price, cfg, profit_target);
        i += 1;
    }
    proof {
        if i < prices@.len() {
            lemma_stopped(candles@, prices@, i as nat, prices@.len(), *cfg, profit_target);
        }
    }
    let last = if prices.len() == 0 {
        S::from_u64(0)
    } else {
        prices[prices.len() - 1]
    };
    BtRun {
        final_val: k.usdt.plus(k.base.times(last)),
        max_dd: k.max_dd,
        total_trades: k.trades,
        daily_rets: k.rets,
    }
}

// Ratios
/// The squared distances from a mean.
pub open spec fn squares<S: Value>(rets: Seq<S>, avg: S) -> Seq<S> {
    Seq::new(rets.len(), |i: int| rets[i].diff(avg).prod(rets[i].diff(avg)))
}

/// The mean of the returns.
pub open spec fn mean<S: Value>(rets: Seq<S>) -> S {
    total(rets).quot(S::count(rets.len() as u64))
}

/// The standard deviation of the returns.
pub open spec fn deviation_of<S: Value>(rets: Seq<S>) -> S {
    total(squares(rets, mean(rets))).quot(
        S::count(rets.len() as u64).diff(S::count(1)),
    ).root()
}

/// The yearly Sharpe ratio of daily returns; zero where there are fewer than
/// two or they hardly differ.
pub open spec fn sharpe_of<S: Value>(rets: Seq<S>) -> S {
    if rets.len() < 2 {
        S::count(0)
    } else if deviation_of(rets).below(S::faint()) {
        S::count(0)
    } else {
        mean(rets).quot(deviation_of(rets)).prod(S::count(252).root())
    }
}

pub fn sharpe<S: Number>(rets: &[S]) -> (r: S)
    ensures
        r == sharpe_of(rets@),
{
    if rets.len() < 2 {
        return S::from_u64(0);
    }
    let n = S::from_u64(rets.len() as u64);
    let avg = sum_of(rets).over(n);
    let mut acc = S::from_u64(0);
    let ghost sq = squares(rets@, avg);
    let mut i: usize = 0;
    assert(sq.take(0) =~= Seq::empty());
    while i < rets.len()
        invariant
            i <= rets@.len(),
            sq == squares(rets@, avg),
            acc == total(sq.take(i as int)),
        decreases rets.len() - i,
    {
        proof {
            assert(sq.take(i + 1) =~= sq.take(i as int).push(sq[i as int]));
            lemma_total_push(sq.take(i as int), sq[i as int]);
        }
        let d = rets[i].minus(avg);
        acc = acc.plus(d.times(d));
        i += 1;
    }
    assert(sq.take(i as int) =~= sq);
    let std = acc.over(n.minus(S::from_u64(1))).sqrt();
    if std.lt(S::trillionth()) {
        return S::from_u64(0);
    }
    avg.over(std).times(S::from_u64(252).sqrt())
}

/// The profit targets that are tried, in percent.
pub open spec fn targets<S: Value>() -> Seq<S> {
    seq![ratio(5, 10), S::count(1), S::count(2), S::count(5), S::count(10)]
}

/// Whether a result reports the backtest of a profit target.
pub open spec fn reports<S: Value>(
    r: OptResult<S>,
    candles: Seq<Candle<S>>,
    prices: Seq<S>,
    cfg: BotConfig<S>,
    target: S,
) -> bool {
    let k = kernel_after(candles, prices, prices.len(), cfg, target);
    let cap = cfg.total_capital;
    &&& r.profit_target_pct == target
    &&& r.final_value == kernel_value(k, prices)
    &&& r.net_pnl_pct == r.final_value.diff(cap).quot(cap).prod(S::count(100))
    &&& r.total_trades == k.trades
    &&& r.max_drawdown_pct == k.max_dd
    &&& r.sharpe_ratio == sharpe_of(k.rets)
    &&& r.calmar_ratio == if S::tiny().below(k.max_dd) {
        r.net_pnl_pct.quot(k.max_dd)
    } else {
        S::count(0)
    }
}

/// Backtests every profit target.
pub fn auto_optimize<S: Number>(
    candles: &[Candle<S>],
    prices: &[S],
    cfg: &BotConfig<S>,
) -> (r: Vec<OptResult<S>>)
    requires
        cfg.grid_rebuild_ticks > 0 || prices@.len() == 0,
        prices@.len() * (2 * (cfg.grid_levels / 2)) <= usize::MAX,
    ensures
        r@.len() == targets::<S>().len(),
        forall|i: int|
            0 <= i < r@.len() ==> reports(
                #[trigger] r@[i],
                candles@,
                prices@,
                *cfg,
                targets::<S>()[i],
            ),
{
    let mut tried: Vec<S> = Vec::new();
    tried.push(lit(5, 10));
    tried.push(S::from_u64(1));
    tried.push(S::from_u64(2));
    tried.push(S::from_u64(5));
    tried.push(S::from_u64(10));
    assert(tried@ =~= targets::<S>());
    let mut results: Vec<OptResult<S>> = Vec::new();
    let mut i: usize = 0;
    while i < tried.len()
        invariant
            i <= tried@.len(),
            tried@ == targets::<S>(),
            cfg.grid_rebuild_ticks > 0 || prices@.len() == 0,
            prices@.len() * (2 * (cfg.grid_levels / 2)) <= usize::MAX,
            results@.len() == i,
            forall|j: int|
                0 <= j < i ==> reports(
                    #[trigger] results@[j],
                    candles@,
                    prices@,
                    *cfg,
                    targets::<S>()[j],
                ),
        decreases tried.len() - i,
    {
        let t = tried[i];
        let bt = backtest_kernel(candles, prices, cfg, t);
        let cap = cfg.total_capital;
        let pnl = bt.final_val.minus(cap).over(cap).times(S::from_u64(100));
        let sh = sharpe(bt.daily_rets.as_slice());
        let cal = if S::epsilon().lt(bt.max_dd) {
            pnl.over(bt.max_dd)
        } else {
            S::from_u64(0)
        };
        results.push(
            OptResult {
                profit_target_pct: t,
                final_value: bt.final_val,
                net_pnl_pct: pnl,
                total_trades: bt.total_trades,
                max_drawdown_pct: bt.max_dd,
                sharpe_ratio: sh,
                calmar_ratio: cal,
            },
        );
        i += 1;
    }
    results
}

/// The position of the best result by Sharpe ratio; the later one where two are
/// as good.
pub open spec fn best_of<S: Value>(results: Seq<OptResult<S>>) -> int
    decreases results.len(),
{
    if results.len() <= 1 {
        0
    } else {
        let best = best_of(results.drop_last());
        if results.last().sharpe_ratio.below(results[best].sharpe_ratio) {
            best
        } else {
            results.len() - 1
        }
    }
}

pub fn best_run<S: Number>(results: &[OptResult<S>]) -> (r: Option<usize>)
    ensures
        match r {
            None => results@.len() == 0,
            Some(i) => results@.len() > 0 && i == best_of(results@) && i < results@.len(),
        },
{
    if results.len() == 0 {
        return None;
    }
    let mut best: usize = 0;
    let mut i: usize = 1;
    while i < results.len()
        invariant
            1 <= i <= results@.len(),
            best < i,
            best == best_of(results@.take(i as int)),
        decreases results.len() - i,
    {
        assert(results@.take(i + 1).drop_last() =~= results@.take(i as int));
        if !results[i].sharpe_ratio.lt(results[best].sharpe_ratio) {
            best = i;
        }
        i += 1;
    }
    assert(results@.take(i as int) =~= results@);
    Some(best)
}

/// No result has a better Sharpe ratio than the best one, as long as all ratios
/// are numbers.
pub proof fn law_best_is_best<S: Ordered>(results: Seq<OptResult<S>>, i: int)
    requires
        forall|j: int| 0 <= j < results.len() ==> is_number((#[trigger] results[j]).sharpe_ratio),
        0 <= i < results.len(),
    ensures
        0 <= best_of(results) < results.len(),
        !results[best_of(results)].sharpe_ratio.below(results[i].sharpe_ratio),
    decreases results.len(),
{
    let last = results.last();
    S::law_strict(results[i].sharpe_ratio, results[i].sharpe_ratio);
    if results.len() > 1 {
        let front = results.drop_last();
        assert forall|j: int| 0 <= j < front.len() implies is_number(
            (#[trigger] front[j]).sharpe_ratio,
        ) by {
            assert(is_number(results[j].sharpe_ratio));
        }
        let b = best_of(front);
        law_best_is_best(front, 0);
        assert(is_number(results[b].sharpe_ratio));
        assert(is_number(results[results.len() - 1].sharpe_ratio));
        S::law_strict(last.sharpe_ratio, results[b].sharpe_ratio);
        S::law_compare(last.sharpe_ratio, results[b].sharpe_ratio);
        S::law_strict(results[b].sharpe_ratio, results[b].sharpe_ratio);
        if i < front.len() {
            law_best_is_best(front, i);
            assert(front[i] == results[i]);
            assert(is_number(results[i].sharpe_ratio));
            S::law_chain(results[b].sharpe_ratio, last.sharpe_ratio, results[i].sharpe_ratio);
        }
    }
}

/// The largest drawdown of a backtest only grows from tick to tick, and is
/// never negative.
pub proof fn law_max_drawdown_grows<S: Ordered>(
    candles: Seq<Candle<S>>,
    prices: Seq<S>,
    n: nat,
    cfg: BotConfig<S>,
    profit_target: S,
)
    ensures
        !kernel_after(candles, prices, n + 1, cfg, profit_target).max_dd.below(
            kernel_after(candles, prices, n, cfg, profit_target).max_dd,
        ),
        !kernel_after(candles, prices, n, cfg, profit_target).max_dd.below(S::count(0)),
    decreases n,
{
    let k = kernel_after(candles, prices, n, cfg, profit_target);
    let next = kernel_after(candles, prices, n + 1, cfg, profit_target);
    S::law_strict(S::count(0), S::count(0));
    lemma_max_dd_step(candles, prices, n, cfg, profit_target);
    if n > 0 {
        law_max_drawdown_grows(candles, prices, (n - 1) as nat, cfg, profit_target);
        let before = kernel_after(candles, prices, (n - 1) as nat, cfg, profit_target);
        lemma_max_dd_step(candles, prices, (n - 1) as nat, cfg, profit_target);
        if k.max_dd != before.max_dd && k.max_dd.below(S::count(0)) {
            S::law_strict(k.max_dd, S::count(0));
            S::law_strict(before.max_dd, k.max_dd);
            S::law_chain(before.max_dd, k.max_dd, S::count(0));
        }
    }
}

proof fn lemma_max_dd_levels<S: Value>(
    k: Kernel<S>,
    price: S,
    step: S,
    n: nat,
    cfg: BotConfig<S>,
)
    ensures
        kernel_levels(k, price, step, n, cfg).max_dd == k.max_dd,
    decreases n,
{
    if n > 0 {
        lemma_max_dd_levels(k, price, step, (n - 1) as nat, cfg);
    }
}

proof fn lemma_max_dd_step<S: Ordered>(
    candles: Seq<Candle<S>>,
    prices: Seq<S>,
    n: nat,
    cfg: BotConfig<S>,
    profit_target: S,
)
    ensures
        ({
            let k = kernel_after(candles, prices, n, cfg, profit_target);
            let next = kernel_after(candles, prices, n + 1, cfg, profit_target);
            &&& next.max_dd == k.max_dd || k.max_dd.below(next.max_dd)
            &&& !next.max_dd.below(k.max_dd)
        }),
{
    let k = kernel_after(candles, prices, n, cfg, profit_target);
    let next = kernel_after(candles, prices, n + 1, cfg, profit_target);
    S::law_strict(k.max_dd, k.max_dd);
    S::law_strict(k.max_dd, next.max_dd);
    if !k.stopped {
        let price = prices[n as int];
        let atr = kernel_atr(candles, n as int, price, cfg.atr_outlier_cap_pct);
        let step = kernel_step(atr, cfg.grid_levels);
        let fresh = kernel_rebuild(k, n as int, cfg.grid_rebuild_ticks);
        lemma_max_dd_levels(fresh, price, step, (cfg.grid_levels / 2) as nat, cfg);
    }
}

/// One less than two or more is positive.
proof fn lemma_one_less<S: Total>(n: u64)
    requires
        n >= 2,
    ensures
        S::count(0).below(S::count(n).diff(S::count(1))),
{
    let (one, two) = (S::count(1), S::count(2));
    lemma_counts::<S>(2, n);
    S::law_strict(S::count(n), two);
    S::law_monotone(S::count(n), two, one);
    S::law_two();
    S::law_one();
    lemma_not_below(S::count(n).diff(one), one);
    S::law_chain(S::count(0), one, S::count(n).diff(one));
}

/// Returns that are all equal to their mean have no deviation, and so no ratio.
pub proof fn law_steady_returns_have_no_ratio<S: Total>(rets: Seq<S>)
    requires
        rets.len() <= u64::MAX,
        forall|i: int| 0 <= i < rets.len() ==> #[trigger] rets[i] == mean(rets),
    ensures
        sharpe_of(rets) == S::count(0),
{
    if rets.len() >= 2 {
        let zero = S::count(0);
        let x = mean(rets);
        let s = squares(rets, x);
        S::law_zero(x);
        S::law_zero(zero);
        assert forall|i: int| 0 <= i < s.len() implies #[trigger] s[i] == zero by {
            assert(rets[i] == x);
        }
        lemma_total_of_zeros(s);
        let less = S::count(rets.len() as u64).diff(S::count(1));
        lemma_one_less::<S>(rets.len() as u64);
        S::law_zero(less);
        S::law_thresholds();
    }
}

/// Without rounding, equal returns have no ratio, whatever they are.
pub proof fn law_equal_returns_have_no_ratio(rets: Seq<real>, x: real)
    requires
        rets.len() <= u64::MAX,
        forall|i: int| 0 <= i < rets.len() ==> #[trigger] rets[i] == x,
    ensures
        sharpe_of(rets) == 0 as real,
{
    if rets.len() >= 2 {
        lemma_total_of_equals(rets, x);
        lemma_quot_undone(x, rets.len() as real);
        law_steady_returns_have_no_ratio(rets);
    }
}

/// In fixed point, equal returns whose number and sum are in range have no ratio.
pub proof fn law_equal_fixed_returns_have_no_ratio(rets: Seq<Fixed>, x: Fixed)
    requires
        rets.len() * SCALE <= i64::MAX,
        i64::MIN <= rets.len() * x.units <= i64::MAX,
        forall|i: int| 0 <= i < rets.len() ==> #[trigger] rets[i] == x,
    ensures
        sharpe_of(rets) == Fixed::count(0),
{
    let n = rets.len() as int;
    if n >= 2 {
        lemma_total_of_equal_fixed(rets, x);
        let (a, b) = (n * x.units * SCALE, n * SCALE);
        assert(a / b == x.units) by {
            assert(a == x.units * b) by (nonlinear_arith)
                requires
                    a == n * x.units * SCALE,
                    b == n * SCALE,
            ;
            vstd::arithmetic::div_mod::lemma_div_multiples_vanish(x.units as int, b);
            assert(b * x.units == x.units * b) by (nonlinear_arith);
        }
        law_steady_returns_have_no_ratio(rets);
    }
}

/// The sum of equal numbers in fixed point.
proof fn lemma_total_of_equal_fixed(xs: Seq<Fixed>, x: Fixed)
    requires
        i64::MIN <= xs.len() * x.units <= i64::MAX,
        forall|i: int| 0 <= i < xs.len() ==> #[trigger] xs[i] == x,
    ensures
        total(xs).units == xs.len() * x.units,
    decreases xs.len(),
{
    if xs.len() > 0 {
        let front = xs.drop_last();
        assert forall|i: int| 0 <= i < front.len() implies #[trigger] front[i] == x by {
            assert(xs[i] == x);
        }
        assert(xs[xs.len() - 1] == x);
        let (n, u) = (front.len() as int, x.units as int);
        assert((n + 1) * u == n * u + u && (u >= 0 ==> 0 <= n * u) && (u < 0 ==> n * u <= 0))
            by (nonlinear_arith)
            requires
                n >= 0,
        ;
        lemma_total_of_equal_fixed(front, x);
    } else {
        assert(0 * x.units == 0) by (nonlinear_arith);
    }
}

/// The sum of equal numbers.
proof fn lemma_total_of_equals(xs: Seq<real>, x: real)
    requires
        forall|i: int| 0 <= i < xs.len() ==> #[trigger] xs[i] == x,
    ensures
        total(xs) == (xs.len() as real) * x,
    decreases xs.len(),
{
    if xs.len() > 0 {
        assert forall|i: int| 0 <= i < xs.drop_last().len() implies #[trigger] xs.drop_last()[i]
            == x by {
            assert(xs[i] == x);
        }
        lemma_total_of_equals(xs.drop_last(), x);
        assert(xs[xs.len() - 1] == x);
        let m = (xs.len() - 1) as real;
        assert((m + 1 as real) * x == m * x + x) by (nonlinear_arith);
    } else {
        real::law_zero(x);
    }
}

/// The outcome does not depend on the target as long as the lower one lasts: a
/// higher target only extends the run of a lower one, so that neither the trades
/// nor the drawdown are fewer.
pub proof fn law_higher_target_extends_run<S: Ordered>(
    candles: Seq<Candle<S>>,
    prices: Seq<S>,
    n: nat,
    cfg: BotConfig<S>,
    lower: S,
    higher: S,
)
    requires
        lower.at_most(higher),
    ensures
        ({
            let a = kernel_after(candles, prices, n, cfg, lower);
            let b = kernel_after(candles, prices, n, cfg, higher);
            &&& !a.stopped ==> b == a
            &&& a.trades <= b.trades
            &&& !b.max_dd.below(a.max_dd)
            &&& a.rets.is_prefix_of(b.rets)
        }),
    decreases n,
{
    let a = kernel_after(candles, prices, n, cfg, lower);
    let b = kernel_after(candles, prices, n, cfg, higher);
    S::law_strict(a.max_dd, a.max_dd);
    if n > 0 {
        let m = (n - 1) as nat;
        law_higher_target_extends_run(candles, prices, m, cfg, lower, higher);
        let (a0, b0) = (
            kernel_after(candles, prices, m, cfg, lower),
            kernel_after(candles, prices, m, cfg, higher),
        );
        let price = prices[m as int];
        let step = kernel_step(
            kernel_atr(candles, m as int, price, cfg.atr_outlier_cap_pct),
            cfg.grid_levels,
        );
        let fresh = kernel_rebuild(b0, m as int, cfg.grid_rebuild_ticks);
        let half = (cfg.grid_levels / 2) as nat;
        let k = kernel_levels(fresh, price, step, half, cfg);
        lemma_trades(fresh, price, step, half, cfg);
        lemma_levels_keep_returns(fresh, price, step, half, cfg);
        lemma_max_dd_levels(fresh, price, step, half, cfg);
        if a0.stopped {
            lemma_max_dd_step(candles, prices, m, cfg, higher);
            S::law_strict(b0.max_dd, b.max_dd);
            S::law_strict(b.max_dd, a.max_dd);
            S::law_chain(b0.max_dd, b.max_dd, a.max_dd);
        } else {
            let val = k.usdt.sum(k.base.prod(price));
            let pft = val.diff(cfg.total_capital).quot(cfg.total_capital).prod(S::count(100));
            S::law_chain(lower, higher, pft);
        }
    }
}

/// The levels of a tick touch neither the returns nor the stop.
proof fn lemma_levels_keep_returns<S: Value>(
    k: Kernel<S>,
    price: S,
    step: S,
    n: nat,
    cfg: BotConfig<S>,
)
    ensures
        kernel_levels(k, price, step, n, cfg).rets == k.rets,
        kernel_levels(k, price, step, n, cfg).stopped == k.stopped,
    decreases n,
{
    if n > 0 {
        lemma_levels_keep_returns(k, price, step, (n - 1) as nat, cfg);
    }
}

/// The targets rise.
proof fn lemma_targets_rise<S: Ordered>(i: int, j: int)
    requires
        0 <= i <= j < targets::<S>().len(),
    ensures
        targets::<S>()[i].at_most(targets::<S>()[j]),
{
    let half = ratio::<S>(5, 10);
    S::law_ratios(5, 10, 1, 1);
    S::law_ratios(5, 10, 5, 10);
    S::law_ratio_of_one(1);
    S::law_counts(1, 1);
    S::law_counts(1, 2);
    S::law_counts(1, 5);
    S::law_counts(1, 10);
    S::law_counts(2, 2);
    S::law_counts(2, 5);
    S::law_counts(2, 10);
    S::law_counts(5, 5);
    S::law_counts(5, 10);
    S::law_counts(10, 10);
    S::law_chain(half, S::count(1), S::count(2));
    S::law_chain(half, S::count(1), S::count(5));
    S::law_chain(half, S::count(1), S::count(10));
}

/// From one result of the search to the next neither the trades nor the drawdown
/// are fewer.
pub proof fn law_results_rise_with_targets<S: Ordered>(
    results: Seq<OptResult<S>>,
    candles: Seq<Candle<S>>,
    prices: Seq<S>,
    cfg: BotConfig<S>,
    i: int,
    j: int,
)
    requires
        results.len() == targets::<S>().len(),
        forall|k: int|
            0 <= k < results.len() ==> reports(
                #[trigger] results[k],
                candles,
                prices,
                cfg,
                targets::<S>()[k],
            ),
        0 <= i <= j < results.len(),
    ensures
        results[i].total_trades <= results[j].total_trades,
        !results[j].max_drawdown_pct.below(results[i].max_drawdown_pct),
{
    let (lower, higher) = (targets::<S>()[i], targets::<S>()[j]);
    assert(reports(results[i], candles, prices, cfg, lower));
    assert(reports(results[j], candles, prices, cfg, higher));
    lemma_targets_rise::<S>(i, j);
    law_higher_target_extends_run(candles, prices, prices.len(), cfg, lower, higher);
}

/// While the window of the average range fills, that is in the first thirteen
/// ticks, the candles have no effect.
pub proof fn law_candles_wait_for_window<S: Value>(
    candles: Seq<Candle<S>>,
    others: Seq<Candle<S>>,
    prices: Seq<S>,
    n: nat,
    cfg: BotConfig<S>,
    profit_target: S,
)
    requires
        n < ATR_WINDOW,
    ensures
        kernel_after(candles, prices, n, cfg, profit_target) == kernel_after(
            others,
            prices,
            n,
            cfg,
            profit_target,
        ),
    decreases n,
{
    if n > 0 {
        law_candles_wait_for_window(candles, others, prices, (n - 1) as nat, cfg, profit_target);
    }
}

} // verus!
