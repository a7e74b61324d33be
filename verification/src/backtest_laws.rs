//! What the full backtest is for: what it reads, what it sees at a tick, and what it
//! then does.
use vstd::prelude::*;

use crate::analyzer::{atr_of, closes};
use crate::backtest::{market_at, note_views, progress_views, row_candle, row_candles, tests_rows};
use crate::backtest::{can_count, tests_recording, window, Backtest, BacktestResult, Phase};
use crate::config::BotConfig;
use crate::exact::lemma_quot_undone;
use crate::grid::{grid_of, lemma_part};
use crate::market_laws::law_regime_by_relative_range;
use crate::models::{Candle, MarketState, WickProfile};
use crate::number::Value;
use crate::optimizer::{reports, targets};
use crate::paper::{book_after, book_in_grid, fills_of, grid_id_of, shows_entry};
use crate::paper::FillTerms;
use crate::text::{begins_with, ends_with};
use crate::risk::backtest_reason;

verus! {

// Rows
/// A row holds a candle if and only if its second to fifth cells hold numbers, open,
/// high, low and close, the high not under the low and the close positive.
pub proof fn law_row_holds_a_candle_if_sound(row: Seq<Option<Seq<char>>>)
    ensures
        row_candle::<real>(row) is Some <==> row.len() >= 5 && {
            &&& row[1] matches Some(o) && real::reading(o) is Some
            &&& row[2] matches Some(h) && row[3] matches Some(l) && row[4] matches Some(c)
                && real::reading(h) matches Some(high) && real::reading(l) matches Some(low)
                && real::reading(c) matches Some(close) && high >= low && close > 0 as real
        },
        row_candle::<real>(row) matches Some(c) ==> {
            &&& row[1] matches Some(t) && real::reading(t) == Some(c.open)
            &&& row[2] matches Some(t) && real::reading(t) == Some(c.high)
            &&& row[3] matches Some(t) && real::reading(t) == Some(c.low)
            &&& row[4] matches Some(t) && real::reading(t) == Some(c.close)
        },
{
}

/// The candles of rows come one after the other, each from its own row.
pub proof fn law_rows_keep_their_order<S: Value>(
    a: Seq<Seq<Option<Seq<char>>>>,
    b: Seq<Seq<Option<Seq<char>>>>,
    row: Seq<Option<Seq<char>>>,
)
    ensures
        row_candles::<S>(a + b) == row_candles::<S>(a) + row_candles::<S>(b),
        row_candles::<S>(seq![row]) == match row_candle::<S>(row) {
            Some(c) => seq![c],
            None => Seq::empty(),
        },
    decreases b.len(),
{
    reveal_with_fuel(row_candles, 2);
    assert(seq![row].drop_last() =~= Seq::empty());
    if let Some(c) = row_candle::<S>(row) {
        assert(Seq::<Candle<S>>::empty().push(c) =~= seq![c]);
    }
    if b.len() == 0 {
        assert(a + b =~= a);
        assert(row_candles::<S>(a) + row_candles::<S>(b) =~= row_candles::<S>(a));
    } else {
        assert((a + b).drop_last() =~= a + b.drop_last());
        assert((a + b).last() == b.last());
        law_rows_keep_their_order::<S>(a, b.drop_last(), row);
        let (x, y) = (row_candles::<S>(a), row_candles::<S>(b.drop_last()));
        if let Some(c) = row_candle::<S>(b.last()) {
            assert((x + y).push(c) =~= x + y.push(c));
        }
    }
}

// What is seen
/// The first candle that some of the latest begin with.
pub open spec fn first_of(i: int, n: int) -> int {
    if i + 1 < n {
        0
    } else {
        i + 1 - n
    }
}

/// Without rounding, the market of a tick is the close with nothing leaning either way,
/// and a range: over the last fifteen candles and never under three per mille of the
/// price, half a percent of it at the first tick. Its regime is that of the range, and
/// its wicks are those of the last twenty candles.
pub proof fn law_tick_sees_its_candles(candles: Seq<Candle<real>>, i: int, cap_pct: real)
    requires
        0 <= i < candles.len(),
        candles[i].close > 0 as real,
    ensures
        ({
            let m = market_at(candles, i, cap_pct);
            let price = candles[i].close;
            let ranges = candles.subrange(first_of(i, 15), i + 1);
            let over = atr_of(ranges, ranges.len() - 1, cap_pct);
            &&& m.price == price && m.ema9 == price && m.ema20 == price && m.ema21 == price
            &&& m.ema50 == price && m.rsi == 50 as real && m.spread_bps == 5 as real
            &&& m.trend is Neutral && m.trend_signal is Caution
            &&& i == 0 ==> 1000 as real * m.atr == 5 as real * price
            &&& i > 0 ==> {
                &&& 1000 as real * m.atr >= 3 as real * price && m.atr >= over
                &&& 1000 as real * m.atr == 3 as real * price || m.atr == over
            }
            &&& m.regime is Low <==> 1000 as real * m.atr < 8 as real * price
            &&& m.regime is High <==> 20 as real * price <= 1000 as real * m.atr
            &&& m.wick_profile == WickProfile::of(candles.subrange(first_of(i, 20), i + 1))
        }),
{
    let m = market_at(candles, i, cap_pct);
    let price = candles[i].close;
    lemma_part(price, 3, 1000);
    lemma_part(price, 5, 1000);
    law_regime_by_relative_range(m.atr, price);
    assert(window(candles, i, 14) =~= candles.subrange(first_of(i, 15), i + 1));
    assert(window(candles, i, 19) =~= candles.subrange(first_of(i, 20), i + 1));
}

/// A tick does not look ahead: the market depends on the candles up to it alone.
pub proof fn law_market_does_not_look_ahead<S: Value>(
    candles: Seq<Candle<S>>,
    later: Seq<Candle<S>>,
    i: int,
    cap_pct: S,
)
    requires
        0 <= i < candles.len(),
    ensures
        market_at(candles + later, i, cap_pct) == market_at(candles, i, cap_pct),
{
    assert((candles + later)[i] == candles[i]);
    assert(window(candles + later, i, 14) =~= window(candles, i, 14));
    assert(window(candles + later, i, 19) =~= window(candles, i, 19));
}

/// A backtest does not look ahead: what it is after some candles depends on those alone.
pub proof fn law_backtest_does_not_look_ahead<S: Value>(
    candles: Seq<Candle<S>>,
    later: Seq<Candle<S>>,
    n: nat,
    cfg: BotConfig<S>,
)
    requires
        n <= candles.len(),
    ensures
        Backtest::after(candles + later, n, cfg) == Backtest::after(candles, n, cfg),
    decreases n,
{
    if n > 0 {
        law_backtest_does_not_look_ahead(candles, later, (n - 1) as nat, cfg);
        law_market_does_not_look_ahead(candles, later, n - 1, cfg.atr_outlier_cap_pct);
    }
}

// What is done
/// Without rounding, the grid is built anew at the first tick, when it is as old as the
/// period, and when the range is off from half a percent of the price by more than the
/// threshold, in percent; at no other tick. It is then the grid of the tick's market.
pub proof fn law_grid_is_rebuilt_when_due(
    m: Backtest<real>,
    tick: int,
    state: MarketState<real>,
    cfg: BotConfig<real>,
)
    requires
        state.price > 0 as real,
        m.last_rebuild > 0,
    ensures
        ({
            let after = m.with_grid(tick, state, cfg);
            let due = {
                ||| tick == 1
                ||| tick - m.last_rebuild >= cfg.grid_rebuild_ticks
                ||| 100 as real * (1000 as real * state.atr - 5 as real * state.price)
                    > cfg.atr_rebuild_threshold_pct * (5 as real * state.price)
                ||| 100 as real * (5 as real * state.price - 1000 as real * state.atr)
                    > cfg.atr_rebuild_threshold_pct * (5 as real * state.price)
            };
            &&& due ==> after.grid == Some(grid_of(state, cfg.grid_levels)) && after.last_rebuild
                == tick
            &&& !due ==> after.grid == m.grid && after.last_rebuild == m.last_rebuild
            &&& after.book == m.book && after.risk == m.risk && after.phase == m.phase
            &&& after.history == m.history && after.notes == m.notes
        }),
{
    let p = state.price;
    lemma_part(p, 5, 1000);
    let normal = p.prod(crate::number::ratio(5, 1000));
    let d = (state.atr - normal).size();
    let q = d / normal;
    lemma_quot_undone(d, normal);
    let t = cfg.atr_rebuild_threshold_pct;
    let gap = 1000 as real * d;
    assert(q * 100 as real > t <==> 100 as real * gap > t * (5 as real * p)) by (nonlinear_arith)
        requires
            q * normal == d,
            normal * 1000 as real == p * 5 as real,
            gap == 1000 as real * d,
            normal > 0 as real,
    ;
    let x = 1000 as real * state.atr - 5 as real * p;
    assert(gap == x || gap == -x);
    assert(gap >= x && gap >= -x);
}

/// Before the first grid everything asks for one.
pub proof fn law_first_grid_is_built(
    m: Backtest<real>,
    tick: int,
    state: MarketState<real>,
    cfg: BotConfig<real>,
)
    requires
        m.last_rebuild <= 0,
        cfg.atr_rebuild_threshold_pct < 100 as real,
    ensures
        m.with_grid(tick, state, cfg).grid == Some(grid_of(state, cfg.grid_levels)),
{
}

/// A tick trades its grid at the close, for a position by the limits and the capital,
/// with the configured least value and slippage; the fills come to the history.
pub proof fn law_tick_trades_its_grid<S: Value>(
    m: Backtest<S>,
    state: MarketState<S>,
    cfg: BotConfig<S>,
)
    requires
        m.grid is Some,
    ensures
        ({
            let after = m.with_fills(state, cfg);
            let levels = (m.grid->0).levels;
            let t = FillTerms {
                price: state.price,
                pos_size: m.risk.size_of_position(m.book.capital, state),
                state,
                min_notional: cfg.min_notional_usdt,
                base_slip: cfg.slippage_pct,
            };
            let start = book_in_grid(m.book, m.grid_id, levels);
            &&& after.book == book_after(start, levels, t)
            &&& after.grid_id == grid_id_of(levels)
            &&& after.history.len() <= cfg.max_trade_history
            &&& after.book.counter == m.book.counter + fills_of(start, levels, t).len()
            &&& after.risk == m.risk && after.phase == m.phase && after.grid == m.grid
        }),
{
    let levels = (m.grid->0).levels;
    let t = FillTerms {
        price: state.price,
        pos_size: m.risk.size_of_position(m.book.capital, state),
        state,
        min_notional: cfg.min_notional_usdt,
        base_slip: cfg.slippage_pct,
    };
    crate::paper::law_fills_account_for_book(
        book_in_grid(m.book, m.grid_id, levels),
        levels,
        t,
    );
}

/// At its end a tick holds the value of the account against the limits: the safety
/// switch stops for good and tells why, any other limit pauses for two rebuild periods,
/// and without one the backtest goes on. What was reached is noted with its tick.
pub proof fn law_tick_obeys_its_limits(
    m: Backtest<real>,
    tick: int,
    price: real,
    cfg: BotConfig<real>,
)
    ensures
        ({
            let after = m.with_limits(tick, price, cfg);
            let value = m.book.capital + m.book.base_held * price;
            let v = m.risk.verdict_at(value);
            &&& v is Clear <==> after.phase is Active
            &&& v is Safety <==> after.phase is Stopped
            &&& after.phase matches Phase::PausedUntil(until) ==> until == tick + 2
                * cfg.grid_rebuild_ticks
            &&& after.phase matches Phase::Stopped(text) ==> after.notes.last() == (tick, text)
            &&& v is Clear ==> after.notes == m.notes
            &&& !(v is Clear) ==> after.notes.len() == m.notes.len() + 1 && after.notes.drop_last()
                == m.notes && after.notes.last() == (tick, backtest_reason(v))
            &&& after.risk.peak >= value && after.risk.peak >= m.risk.peak
            &&& tick % 1440 == 0 ==> after.risk.snapshot == value
            &&& tick % 1440 != 0 ==> after.risk.snapshot == m.risk.snapshot && after.risk.returns
                == m.risk.returns
            &&& tick % 50_000 != 0 ==> after.progress == m.progress
            &&& tick % 50_000 == 0 ==> after.progress.last() == (
                tick,
                price,
                value,
                m.book.counter,
            )
            &&& after.book == m.book && after.grid == m.grid && after.history == m.history
        }),
{
    let after = m.with_limits(tick, price, cfg);
    let value = m.book.capital + m.book.base_held * price;
    if !(m.risk.verdict_at(value) is Clear) {
        assert(after.notes.drop_last() =~= m.notes);
    }
}

/// A tick is left out after a stop and before the end of a pause, and at no other time;
/// one that is left out changes nothing, and any other builds, trades and holds the
/// limits, in that order.
pub proof fn law_ticks_are_left_out_while_paused<S: Value>(
    m: Backtest<S>,
    candles: Seq<Candle<S>>,
    i: int,
    cfg: BotConfig<S>,
)
    ensures
        ({
            let state = market_at(candles, i, cfg.atr_outlier_cap_pct);
            let after = m.after_tick(candles, i, cfg);
            let traded = m.with_grid(i + 1, state, cfg).with_fills(state, cfg);
            &&& m.phase is Stopped ==> after == m
            &&& m.phase matches Phase::PausedUntil(until) ==> if i + 1 < until {
                after == m
            } else {
                after == traded.with_limits(i + 1, candles[i].close, cfg)
            }
            &&& m.phase is Active ==> after == traded.with_limits(i + 1, candles[i].close, cfg)
        }),
{
}

/// A backtest begins with its capital, no holdings, no grid and no limits reached.
pub proof fn law_backtest_begins_fresh(cfg: BotConfig<real>)
    ensures
        ({
            let m = Backtest::start(cfg);
            &&& m.book.capital == cfg.total_capital && m.book.base_held == 0 as real
            &&& m.book.counter == 0 && m.book.total_slip == 0 as real
            &&& m.history.len() == 0 && m.notes.len() == 0 && m.progress.len() == 0
            &&& m.phase is Active && m.grid is None && m.grid_id == 0 && m.last_rebuild == 0
            &&& m.risk.initial == cfg.total_capital && m.risk.peak == cfg.total_capital
        }),
{
}

/// Without a grid so far the range counts as wholly off: the grid is built anew where the
/// threshold is under a hundred percent.
pub proof fn law_missing_grid_counts_as_wholly_off(
    m: Backtest<real>,
    tick: int,
    state: MarketState<real>,
    cfg: BotConfig<real>,
)
    requires
        m.last_rebuild <= 0,
    ensures
        m.rebuilds(tick, state, cfg) <==> {
            ||| tick == 1
            ||| tick - m.last_rebuild >= cfg.grid_rebuild_ticks
            ||| cfg.atr_rebuild_threshold_pct < 100 as real
        },
{
}

/// A backtest over rows comes to nothing exactly where no row holds a candle; else it
/// tries five targets on the candles and its run stands where the backtest over all of
/// them stands: account, limits, grid, notes and progress.
pub proof fn law_result_stands_after_all_candles(
    r: Option<BacktestResult<real>>,
    rows: Seq<Seq<Option<Seq<char>>>>,
    cfg: BotConfig<real>,
    i: int,
)
    requires
        tests_rows(r, rows, cfg),
    ensures
        r is None <==> row_candles::<real>(rows).len() == 0,
        r matches Some(b) ==> {
            let m = Backtest::after(b.candles@, b.candles@.len(), cfg);
            &&& b.candles@ == row_candles::<real>(rows)
            &&& b.optimizer@.len() == 5
            &&& b.run.paper.capital == m.book.capital
            &&& b.run.paper.base_held == m.book.base_held
            &&& b.run.paper.counter == m.book.counter
            &&& b.run.paper.grid_id == m.grid_id
            &&& b.run.paper.trades@.len() == m.history.len()
            &&& 0 <= i < m.history.len() ==> {
                let (t, f) = (b.run.paper.trades@[i], m.history[i].fill);
                &&& t.side == f.side && t.price == f.price && t.exec_price == f.exec_price
                &&& t.qty == f.qty && t.value_usdt == f.value && t.slippage == f.slippage
                &&& t.symbol@ == cfg.symbol@ && t.slip_mult == m.history[i].slip_mult
                &&& t.trend_signal@ == m.history[i].label
            }
            &&& b.run.paper.symbol@ == cfg.symbol@
            &&& b.run.risk@ == m.risk
            &&& b.run.status is Active <==> m.phase is Active
            &&& b.run.status is Stopped <==> m.phase is Stopped
            &&& b.run.grid is None <==> m.grid is None
            &&& b.run.last_rebuild == m.last_rebuild
            &&& b.run.notes@.len() == m.notes.len()
            &&& 0 <= i < m.notes.len() ==> b.run.notes@[i].0 == m.notes[i].0
                && b.run.notes@[i].1@ == m.notes[i].1
            &&& b.run.progress@.len() == m.progress.len()
            &&& 0 <= i < m.progress.len() ==> {
                let p = b.run.progress@[i];
                &&& p.tick == m.progress[i].0 && p.price == m.progress[i].1
                &&& p.value == m.progress[i].2 && p.trades == m.progress[i].3
            }
            &&& 0 <= i < 5 ==> reports(
                b.optimizer@[i],
                b.candles@,
                closes(b.candles@),
                cfg,
                targets::<real>()[i],
            )
        },
{
    if let Some(b) = r {
        let m = Backtest::after(b.candles@, b.candles@.len(), cfg);
        let notes = note_views(b.run.notes@);
        let lines = progress_views(b.run.progress@);
        assert(notes == m.notes && lines == m.progress);
        assert(notes.len() == b.run.notes@.len() && lines.len() == b.run.progress@.len());
        if 0 <= i < m.notes.len() {
            assert(notes[i] == m.notes[i]);
        }
        if 0 <= i < m.progress.len() {
            assert(lines[i] == m.progress[i]);
        }
        assert(m.book == b.run.paper.book());
        if 0 <= i < m.history.len() {
            assert(shows_entry(b.run.paper.trades@[i], m.history[i], cfg.symbol@));
        }
    }
}

/// A recording without rows is told as a fault of its text, one with too many as that,
/// and every other is tested.
pub proof fn law_recordings_are_tested<S: Value>(
    r: Result<Option<BacktestResult<S>>, String>,
    recording: Result<Seq<Seq<Option<Seq<char>>>>, Seq<char>>,
    cfg: BotConfig<S>,
)
    requires
        tests_recording(r, recording, cfg),
    ensures
        r is Ok <==> recording is Ok && can_count(recording->Ok_0.len(), cfg),
        r matches Ok(found) ==> tests_rows(found, recording->Ok_0, cfg),
        recording matches Err(message) ==> r matches Err(e) && begins_with(e@, "JSON: "@)
            && ends_with(e@, message),
        recording is Ok && r is Err ==> r->Err_0@ == "Too many rows"@,
{
    if let Err(message) = recording {
        let text = "JSON: "@ + message;
        assert(text.take("JSON: "@.len() as int) =~= "JSON: "@);
        assert(text.skip(text.len() - message.len()) =~= message);
    }
}

} // verus!
