//! What the search for a profit target is for: what a backtest of one books, and what
//! its results tell.
use vstd::prelude::*;

use crate::analyzer::atr_of;
use crate::config::BotConfig;
use crate::exact::{is_real_root, lemma_prod_in_order, lemma_quot_undone, lemma_ratio_undone};
use crate::grid::lemma_part;
use crate::models::{Candle, OptResult};
use crate::number::{total, Value};
use crate::optimizer::{best_of, deviation_of, kernel_after, kernel_atr, kernel_buy, kernel_close};
use crate::optimizer::{kernel_levels, kernel_position, kernel_rebuild, kernel_sell, kernel_start};
use crate::optimizer::{kernel_step, mean, reports, sell_key, sharpe_of, squares};
use crate::optimizer::{targets, Kernel};
use crate::paper::key_of;

verus! {

// One tick
/// A backtest starts with the capital and nothing else.
pub proof fn law_backtest_starts_with_its_capital(cfg: BotConfig<real>)
    ensures
        ({
            let k = kernel_start(cfg);
            &&& k.usdt == cfg.total_capital && k.peak == cfg.total_capital
            &&& k.day_val == cfg.total_capital
            &&& k.base == 0 as real && k.max_dd == 0 as real
            &&& k.trades == 0 && k.rets.len() == 0 && !k.stopped
        }),
        forall|key: u64| !kernel_start(cfg).buys.contains(key),
        forall|key: u64| !kernel_start(cfg).sells.contains(key),
{
}

/// Without rounding, a buy of the backtest takes one trade's worth of money where the
/// level is free and the money suffices, and gets what that pays for at the level with
/// the slippage on top; else nothing changes.
pub proof fn law_tick_buys_for_one_trade(k: Kernel<real>, gp: real, cfg: BotConfig<real>)
    requires
        gp * (1 as real + cfg.slippage_pct) != 0 as real,
    ensures
        ({
            let after = kernel_buy(k, gp, cfg);
            let pos = cfg.total_capital * cfg.max_single_trade_pct;
            if k.buys.contains(key_of(gp)) || k.usdt < pos {
                after == k
            } else {
                &&& after.usdt + pos == k.usdt
                &&& (after.base - k.base) * (gp * (1 as real + cfg.slippage_pct)) == pos
                &&& after.trades == k.trades + 1
                &&& after.buys == k.buys.insert(key_of(gp)) && after.sells == k.sells
                &&& after.rets == k.rets && after.day_val == k.day_val
                &&& after.peak == k.peak && after.max_dd == k.max_dd
                &&& after.stopped == k.stopped
            }
        }),
{
    lemma_quot_undone(kernel_position(cfg), gp * (1 as real + cfg.slippage_pct));
}

/// Without rounding, a sell of the backtest sells one trade's worth at the level or all
/// that is held, whichever is less, where the level is free and something is held, and
/// brings in the level without the slippage; else nothing changes.
pub proof fn law_tick_sells_for_one_trade(k: Kernel<real>, sp: real, cfg: BotConfig<real>)
    requires
        sp > 0 as real,
    ensures
        ({
            let after = kernel_sell(k, sp, cfg);
            let pos = cfg.total_capital * cfg.max_single_trade_pct;
            let sold = k.base - after.base;
            if k.sells.contains(sell_key(sp)) || k.base <= 0 as real {
                after == k
            } else {
                &&& sold <= k.base && sold * sp <= pos
                &&& sold == k.base || sold * sp == pos
                &&& after.usdt - k.usdt == sold * (sp * (1 as real - cfg.slippage_pct))
                &&& after.trades == k.trades + 1
                &&& after.sells == k.sells.insert(sell_key(sp)) && after.buys == k.buys
                &&& after.rets == k.rets && after.day_val == k.day_val
                &&& after.peak == k.peak && after.max_dd == k.max_dd
                &&& after.stopped == k.stopped
            }
        }),
{
    let pos = kernel_position(cfg);
    lemma_quot_undone(pos, sp);
    let sold = k.base - kernel_sell(k, sp, cfg).base;
    if sold <= pos / sp {
        lemma_prod_in_order(sold, pos / sp, sp);
    }
}

/// The levels of a tick stand one, two and more steps to either side of the price, and
/// of a pair the buy comes first.
pub proof fn law_tick_tries_levels_by_steps(
    k: Kernel<real>,
    price: real,
    step: real,
    n: u64,
    cfg: BotConfig<real>,
)
    requires
        n < u64::MAX,
    ensures
        kernel_levels(k, price, step, 0, cfg) == k,
        ({
            let before = kernel_levels(k, price, step, n as nat, cfg);
            let off = ((n + 1) as real) * step;
            kernel_levels(k, price, step, (n + 1) as nat, cfg) == kernel_sell(
                kernel_buy(before, price - off, cfg),
                price + off,
                cfg,
            )
        }),
{
}

/// The grid is fresh at every full period and at no other tick: then no level is
/// filled, and nothing else changes.
pub proof fn law_grid_is_fresh_every_period(k: Kernel<real>, i: int, ticks: u64, key: u64)
    requires
        ticks > 0,
        i >= 0,
    ensures
        ({
            let after = kernel_rebuild(k, i, ticks);
            &&& i % ticks as int == 0 ==> !after.buys.contains(key) && !after.sells.contains(key)
            &&& i % ticks as int != 0 ==> after == k
            &&& after.usdt == k.usdt && after.base == k.base && after.trades == k.trades
            &&& after.rets == k.rets && after.day_val == k.day_val && after.peak == k.peak
            &&& after.max_dd == k.max_dd && after.stopped == k.stopped
        }),
{
}

/// Without rounding, the levels of the backtest are eighteen tenths of the range apart
/// over half their number; the range is half a percent of the price while the window
/// fills, and never under three per mille of it later.
pub proof fn law_steps_go_with_the_range(
    candles: Seq<Candle<real>>,
    i: int,
    price: real,
    cap_pct: real,
    n: usize,
)
    requires
        n > 0,
        i >= 0,
    ensures
        ({
            let atr = kernel_atr(candles, i, price, cap_pct);
            &&& i < 13 || i >= candles.len() ==> 1000 as real * atr == 5 as real * price
            &&& 13 <= i && i < candles.len() ==> {
                let over = atr_of(candles.subrange(i - 13, i + 1), 13, cap_pct);
                &&& 1000 as real * atr >= 3 as real * price && atr >= over
                &&& 1000 as real * atr == 3 as real * price || atr == over
            }
            &&& 10 as real * kernel_step(atr, n) * (n as real) == 36 as real * atr
        }),
{
    lemma_part(price, 5, 1000);
    lemma_part(price, 3, 1000);
    let atr = kernel_atr(candles, i, price, cap_pct);
    lemma_part(atr, 18, 10);
    let wide = atr.prod(crate::number::ratio(18, 10));
    let m = n as real;
    assert(n as u64 as real == m);
    let half = m / 2 as real;
    lemma_quot_undone(m, 2 as real);
    assert(half > 0 as real);
    let step = wide / half;
    lemma_quot_undone(wide, half);
    assert(10 as real * step * m == 36 as real * atr) by (nonlinear_arith)
        requires
            step * half == wide,
            half * 2 as real == m,
            wide * 10 as real == atr * 18 as real,
    ;
}

// The end of a tick
/// Without rounding, the day's return is booked at the end of every day: the last
/// day's value times one more than the return is the value now, which is the next
/// day's; so a gain is positive and a loss negative. At other ticks nothing is booked.
pub proof fn law_day_books_its_gain(
    k: Kernel<real>,
    i: int,
    price: real,
    cfg: BotConfig<real>,
    profit_target: real,
)
    requires
        k.day_val >= real::slight(),
        i >= 0,
    ensures
        ({
            let after = kernel_close(k, i, price, cfg, profit_target);
            let val = k.usdt + k.base * price;
            &&& after.usdt == k.usdt && after.base == k.base && after.trades == k.trades
            &&& after.buys == k.buys && after.sells == k.sells
            &&& i == 0 || i % 1440 != 0 ==> after.rets == k.rets && after.day_val == k.day_val
            &&& after.stopped ==> after.rets == k.rets && after.day_val == k.day_val || k.stopped
            &&& i > 0 && i % 1440 == 0 && !after.stopped ==> {
                let r = after.rets.last();
                &&& after.rets.len() == k.rets.len() + 1
                &&& after.rets.drop_last() == k.rets
                &&& after.day_val == val
                &&& k.day_val * (1 as real + r) == val
                &&& r > 0 as real <==> val > k.day_val
                &&& r < 0 as real <==> val < k.day_val
            }
        }),
{
    let after = kernel_close(k, i, price, cfg, profit_target);
    let val = k.usdt + k.base * price;
    let d = k.day_val;
    let r = (val - d) / d;
    lemma_quot_undone(val - d, d);
    assert(d * (1 as real + r) == val && (r > 0 as real <==> val > d) && (r < 0 as real <==> val
        < d)) by (nonlinear_arith)
        requires
            r * d == val - d,
            d > 0 as real,
    ;
    if i > 0 && i % 1440 == 0 && !after.stopped {
        assert(after.rets.drop_last() =~= k.rets);
    }
}

/// Capital after returns, one after the other.
pub open spec fn compounded(capital: real, rets: Seq<real>) -> real
    decreases rets.len(),
{
    if rets.len() == 0 {
        capital
    } else {
        compounded(capital, rets.drop_last()) * (1 as real + rets.last())
    }
}

/// Without rounding, the daily returns compound from the initial capital to the value
/// at the last day's end.
pub proof fn law_daily_returns_compound(
    candles: Seq<Candle<real>>,
    prices: Seq<real>,
    n: nat,
    cfg: BotConfig<real>,
    profit_target: real,
)
    requires
        forall|m: nat|
            m <= n ==> (#[trigger] kernel_after(
                candles,
                prices,
                m,
                cfg,
                profit_target,
            )).day_val >= real::slight(),
    ensures
        ({
            let k = kernel_after(candles, prices, n, cfg, profit_target);
            compounded(cfg.total_capital, k.rets) == k.day_val
        }),
    decreases n,
{
    if n > 0 {
        let m = (n - 1) as nat;
        law_daily_returns_compound(candles, prices, m, cfg, profit_target);
        let k = kernel_after(candles, prices, m, cfg, profit_target);
        assert(k.day_val >= real::slight());
        if !k.stopped {
            let price = prices[m as int];
            let step = kernel_step(
                kernel_atr(candles, m as int, price, cfg.atr_outlier_cap_pct),
                cfg.grid_levels,
            );
            let fresh = kernel_rebuild(k, m as int, cfg.grid_rebuild_ticks);
            let tried = kernel_levels(fresh, price, step, (cfg.grid_levels / 2) as nat, cfg);
            lemma_levels_keep_the_day(fresh, price, step, (cfg.grid_levels / 2) as nat, cfg);
            law_day_books_its_gain(tried, m as int, price, cfg, profit_target);
        }
    }
}

/// The levels of a tick touch neither the returns nor the day's value.
proof fn lemma_levels_keep_the_day(
    k: Kernel<real>,
    price: real,
    step: real,
    n: nat,
    cfg: BotConfig<real>,
)
    ensures
        ({
            let after = kernel_levels(k, price, step, n, cfg);
            after.rets == k.rets && after.day_val == k.day_val && after.stopped == k.stopped
        }),
    decreases n,
{
    if n > 0 {
        lemma_levels_keep_the_day(k, price, step, (n - 1) as nat, cfg);
    }
}

/// Without rounding, the end of a tick notes the highest value and the largest drawdown
/// from it, and stops at the profit target or at half as much again as the drawdown
/// limit.
pub proof fn law_tick_stops_at_its_limits(
    k: Kernel<real>,
    i: int,
    price: real,
    cfg: BotConfig<real>,
    profit_target: real,
)
    requires
        !k.stopped,
        k.peak > 0 as real,
        cfg.total_capital > 0 as real,
    ensures
        ({
            let after = kernel_close(k, i, price, cfg, profit_target);
            let val = k.usdt + k.base * price;
            let fall = 100 as real * (after.peak - val);
            &&& after.peak >= k.peak && after.peak >= val
            &&& after.peak == k.peak || after.peak == val
            &&& after.max_dd >= k.max_dd && after.max_dd * after.peak >= fall
            &&& after.max_dd == k.max_dd || after.max_dd * after.peak == fall
            &&& after.stopped <==> {
                ||| profit_target * cfg.total_capital <= 100 as real * (val - cfg.total_capital)
                ||| 3 as real * cfg.max_drawdown_pct * after.peak <= 2 as real * fall
            }
        }),
{
    let after = kernel_close(k, i, price, cfg, profit_target);
    let val = k.usdt + k.base * price;
    let (peak, cap) = (after.peak, cfg.total_capital);
    let q = (peak - val) / peak;
    lemma_quot_undone(peak - val, peak);
    let dd = q * 100 as real;
    assert(dd * peak == 100 as real * (peak - val)) by (nonlinear_arith)
        requires
            q * peak == peak - val,
            dd == q * 100 as real,
    ;
    lemma_prod_in_order(dd, after.max_dd, peak);
    let r = (val - cap) / cap;
    lemma_quot_undone(val - cap, cap);
    assert(profit_target <= r * 100 as real <==> profit_target * cap <= 100 as real * (val - cap))
        by (nonlinear_arith)
        requires
            r * cap == val - cap,
            cap > 0 as real,
    ;
    lemma_part(cfg.max_drawdown_pct, 15, 10);
    let safety = cfg.max_drawdown_pct.prod(crate::number::ratio(15, 10));
    assert(safety <= dd <==> 3 as real * cfg.max_drawdown_pct * peak <= 2 as real * (100 as real * (
    peak - val))) by (nonlinear_arith)
        requires
            safety * 10 as real == cfg.max_drawdown_pct * 15 as real,
            dd * peak == 100 as real * (peak - val),
            peak > 0 as real,
    ;
}

/// A backtest does not look ahead: what it is after some ticks depends on the candles
/// and prices up to there alone.
pub proof fn law_kernel_does_not_look_ahead<S: Value>(
    candles: Seq<Candle<S>>,
    later: Seq<Candle<S>>,
    prices: Seq<S>,
    future: Seq<S>,
    n: nat,
    cfg: BotConfig<S>,
    profit_target: S,
)
    requires
        n <= candles.len(),
        n <= prices.len(),
    ensures
        kernel_after(candles, prices, n, cfg, profit_target) == kernel_after(
            candles + later,
            prices + future,
            n,
            cfg,
            profit_target,
        ),
    decreases n,
{
    if n > 0 {
        law_kernel_does_not_look_ahead(
            candles,
            later,
            prices,
            future,
            (n - 1) as nat,
            cfg,
            profit_target,
        );
        let i = n - 1;
        assert((prices + future)[i] == prices[i]);
        if i >= 13 {
            assert((candles + later).subrange(i - 13, i + 1) =~= candles.subrange(i - 13, i + 1));
        }
    }
}

// The figures
/// Without rounding, the mean of returns times their number is their sum, and equal
/// returns have that return as mean.
pub proof fn law_mean_times_number_is_the_sum(rets: Seq<real>)
    requires
        0 < rets.len() <= u64::MAX,
    ensures
        mean(rets) * (rets.len() as real) == total(rets),
{
    lemma_quot_undone(total(rets), rets.len() as real);
}

/// Without rounding, the Sharpe ratio is the mean over the deviation, times the root of
/// the days of a year; the deviation's square times one less than the number is the sum
/// of the squared distances.
pub proof fn law_sharpe_is_mean_over_deviation(rets: Seq<real>)
    requires
        2 <= rets.len() <= u64::MAX,
        ({
            let spread = total(squares(rets, mean(rets))) / ((rets.len() - 1) as real);
            is_real_root(spread, spread.root())
        }),
    ensures
        deviation_of(rets) * deviation_of(rets) * ((rets.len() - 1) as real) == total(
            squares(rets, mean(rets)),
        ),
        deviation_of(rets) >= real::faint() ==> sharpe_of(rets) * deviation_of(rets) == mean(rets)
            * (252 as real).root(),
        deviation_of(rets) < real::faint() ==> sharpe_of(rets) == 0 as real,
        forall|i: int|
            0 <= i < rets.len() ==> #[trigger] squares(rets, mean(rets))[i] == (rets[i] - mean(
                rets,
            )) * (rets[i] - mean(rets)),
{
    let d = deviation_of(rets);
    let sum = total(squares(rets, mean(rets)));
    let m = (rets.len() - 1) as real;
    assert(rets.len() as u64 as real - 1 as real == m);
    lemma_quot_undone(sum, m);
    assert(d * d * m == sum);
    if d >= real::faint() {
        let a = mean(rets);
        let year = (252 as real).root();
        lemma_quot_undone(a, d);
        let q = a / d;
        assert((q * year) * d == a * year) by (nonlinear_arith)
            requires
                q * d == a,
        ;
    }
}

/// Returns with their signs changed.
pub open spec fn opposite(rets: Seq<real>) -> Seq<real> {
    Seq::new(rets.len(), |i: int| -rets[i])
}

/// Without rounding, losses are rated as the opposite of gains: returns with their signs
/// changed have the opposite ratio, and fewer than two have none.
pub proof fn law_losses_have_the_opposite_ratio(rets: Seq<real>)
    requires
        rets.len() <= u64::MAX,
    ensures
        sharpe_of(opposite(rets)) == -sharpe_of(rets),
        rets.len() < 2 ==> sharpe_of(rets) == 0 as real,
{
    let other = opposite(rets);
    if rets.len() >= 2 {
        let n = rets.len() as real;
        lemma_total_of_opposite(rets);
        let (a, b) = (mean(rets), mean(other));
        lemma_quot_undone(total(rets), n);
        assert(-(total(rets)) / n == -(total(rets) / n)) by (nonlinear_arith)
            requires
                n > 0 as real,
        ;
        assert(b == -a);
        assert(squares(other, b) =~= squares(rets, a)) by {
            assert forall|i: int| 0 <= i < rets.len() implies squares(other, b)[i] == squares(
                rets,
                a,
            )[i] by {
                let x = rets[i];
                assert((-x - b) * (-x - b) == (x - a) * (x - a)) by (nonlinear_arith)
                    requires
                        b == -a,
                ;
            }
        }
        let d = deviation_of(rets);
        if d >= real::faint() {
            let year = (252 as real).root();
            assert((b / d) * year == -((a / d) * year)) by (nonlinear_arith)
                requires
                    b == -a,
                    d > 0 as real,
            ;
        }
    }
}

proof fn lemma_total_of_opposite(rets: Seq<real>)
    ensures
        total(opposite(rets)) == -total(rets),
    decreases rets.len(),
{
    if rets.len() > 0 {
        assert(opposite(rets).drop_last() =~= opposite(rets.drop_last()));
        lemma_total_of_opposite(rets.drop_last());
    }
}

/// Without rounding, a result tells the run of its target: the value at the last price,
/// the profit in percent of the capital, and the profit over the largest drawdown.
pub proof fn law_result_tells_its_run(
    r: OptResult<real>,
    candles: Seq<Candle<real>>,
    prices: Seq<real>,
    cfg: BotConfig<real>,
    target: real,
)
    requires
        reports(r, candles, prices, cfg, target),
        cfg.total_capital > 0 as real,
        prices.len() > 0,
    ensures
        ({
            let k = kernel_after(candles, prices, prices.len(), cfg, target);
            &&& r.profit_target_pct == target
            &&& r.final_value == k.usdt + k.base * prices.last()
            &&& r.net_pnl_pct * cfg.total_capital == 100 as real * (r.final_value
                - cfg.total_capital)
            &&& r.total_trades == k.trades
            &&& r.max_drawdown_pct == k.max_dd
            &&& r.max_drawdown_pct > real::tiny() ==> r.calmar_ratio * r.max_drawdown_pct
                == r.net_pnl_pct
            &&& r.max_drawdown_pct <= real::tiny() ==> r.calmar_ratio == 0 as real
            &&& r.sharpe_ratio == sharpe_of(k.rets)
        }),
{
    let cap = cfg.total_capital;
    let q = (r.final_value - cap) / cap;
    lemma_quot_undone(r.final_value - cap, cap);
    assert((q * 100 as real) * cap == 100 as real * (r.final_value - cap)) by (nonlinear_arith)
        requires
            q * cap == r.final_value - cap,
    ;
    if r.max_drawdown_pct > real::tiny() {
        lemma_quot_undone(r.net_pnl_pct, r.max_drawdown_pct);
    }
}

/// The targets that are tried are half a percent, one, two, five and ten.
pub proof fn law_five_targets_are_tried()
    ensures
        targets::<real>().len() == 5,
        2 as real * targets::<real>()[0] == 1 as real,
        targets::<real>()[1] == 1 as real,
        targets::<real>()[2] == 2 as real,
        targets::<real>()[3] == 5 as real,
        targets::<real>()[4] == 10 as real,
{
    lemma_ratio_undone(5, 10);
}

/// Of two results as good as each other the later one is the best: every result behind
/// the best one is worse.
pub proof fn law_later_of_equals_is_best<S: Value>(results: Seq<OptResult<S>>, i: int)
    requires
        results.len() > 0,
    ensures
        0 <= best_of(results) < results.len(),
        best_of(results) < i < results.len() ==> results[i].sharpe_ratio.below(
            results[best_of(results)].sharpe_ratio,
        ),
    decreases results.len(),
{
    if results.len() > 1 {
        let front = results.drop_last();
        law_later_of_equals_is_best(front, i);
        if 0 <= i < front.len() {
            assert(front[i] == results[i]);
        }
        assert(front[best_of(front)] == results[best_of(front)]);
    }
}

} // verus!
