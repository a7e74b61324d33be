//! The full backtest: the engine run over recorded candles, one tick for each.
use vstd::prelude::*;

use crate::analyzer::{atr_of, closes, regime_of, MarketAnalyzer};
use crate::config::BotConfig;
use crate::course::law_fresh_account_is_solvent;
use crate::grid::{grid_of, law_grid_shape, law_levels_have_positive_prices, DynamicGrid, Grid};
use crate::models::{Candle, MarketState, OptResult, Trend, TrendSignal, WickProfile};
use crate::number::{larger, law_larger, lemma_not_below_chain, lit, max_of, ratio};
use crate::number::{Number, Total, Value};
use crate::optimizer::{auto_optimize, reports, targets, DAY_TICKS};
use crate::paper::{book_after, book_in_grid, entries_of, fills_of, grid_id_of, history_shows};
use crate::paper::{is_solvent, newest, prices_are_positive, records_fill, shows_entry, worth};
use crate::paper::law_account_stays_solvent;
use crate::paper::{law_fills_account_for_book, law_sides_stay_disjoint, lemma_history_grows};
use crate::paper::{Book, Entry, FillTerms, PaperTrader};
use crate::risk::{backtest_reason, law_position_is_not_negative};
use crate::risk::{BacktestStatus, Risk, RiskManager, Verdict};

verus! {

/// The candles before a tick that its average range looks at.
pub const RANGE_CANDLES: usize = 14;

/// The candles that the wick profile of a tick looks at, the tick's own the last.
pub const WICK_CANDLES: usize = 20;

/// After how many ticks the progress is noted.
pub const PROGRESS_TICKS: u64 = 50_000;

// Recorded candles
/// The texts of a row; a cell may hold something else.
pub open spec fn row_texts(row: Seq<Option<String>>) -> Seq<Option<Seq<char>>> {
    Seq::new(
        row.len(),
        |i: int|
            match row[i] {
                Some(s) => Some(s@),
                None => None,
            },
    )
}

/// The texts of rows.
pub open spec fn table_texts(rows: Seq<Vec<Option<String>>>) -> Seq<Seq<Option<Seq<char>>>> {
    Seq::new(rows.len(), |i: int| row_texts(rows[i]@))
}

/// The rows of a JSON text: an array of arrays, of whose cells only the strings
/// count. The error where the text is no such array.
pub uninterp spec fn json_rows(text: Seq<char>) -> Result<
    Seq<Seq<Option<Seq<char>>>>,
    Seq<char>,
>;

/// `serde_json::from_str` into an array of arrays of values, of which
/// `serde_json::Value::as_str` keeps the strings; the error as its text. Both are
/// functions of the text alone.
#[verifier::external_body]
pub(crate) fn parse_rows(text: &str) -> (r: Result<Vec<Vec<Option<String>>>, String>)
    ensures
        match r {
            Ok(rows) => json_rows(text@) == Ok::<_, Seq<char>>(table_texts(rows@)),
            Err(e) => json_rows(text@) == Err::<Seq<Seq<Option<Seq<char>>>>, _>(e@),
        },
{
    let data: Vec<Vec<serde_json::Value>> =
        serde_json::from_str(text).map_err(|e: serde_json::Error| e.to_string())?;
    let texts = |row: &Vec<serde_json::Value>| {
        row.iter().map(|v| v.as_str().map(|s| s.to_string())).collect()
    };
    Ok(data.iter().map(texts).collect())
}

/// The text in a cell of a row, where there is one.
pub open spec fn cell(row: Seq<Option<Seq<char>>>, i: int) -> Option<Seq<char>> {
    if i < row.len() {
        row[i]
    } else {
        None
    }
}

/// The number in a cell of a row, where there is one.
pub open spec fn number_in<S: Value>(row: Seq<Option<Seq<char>>>, i: int) -> Option<S> {
    match cell(row, i) {
        Some(text) => S::reading(text),
        None => None,
    }
}

/// The candle of a row: open, high, low and close stand behind the open time.
/// A row is dropped when one of them cannot be read, the high is under the low
/// or the close is not positive.
pub open spec fn row_candle<S: Value>(row: Seq<Option<Seq<char>>>) -> Option<Candle<S>> {
    match (
        number_in::<S>(row, 1),
        number_in::<S>(row, 2),
        number_in::<S>(row, 3),
        number_in::<S>(row, 4),
    ) {
        (Some(open), Some(high), Some(low), Some(close)) => if high.below(low) || close.at_most(
            S::count(0),
        ) {
            None
        } else {
            Some(Candle { open, high, low, close })
        },
        _ => None,
    }
}

/// The candles of the rows, in order, without those that are dropped.
pub open spec fn row_candles<S: Value>(rows: Seq<Seq<Option<Seq<char>>>>) -> Seq<Candle<S>>
    decreases rows.len(),
{
    if rows.len() == 0 {
        Seq::empty()
    } else {
        match row_candle::<S>(rows.last()) {
            Some(c) => row_candles(rows.drop_last()).push(c),
            None => row_candles(rows.drop_last()),
        }
    }
}

fn read_cell<S: Number>(row: &Vec<Option<String>>, i: usize) -> (r: Option<S>)
    ensures
        r == number_in::<S>(row_texts(row@), i as int),
{
    if i >= row.len() {
        return None;
    }
    match &row[i] {
        Some(text) => S::parse(text.as_str()),
        None => None,
    }
}

/// The candles of recorded rows; a cell holds a text or something else.
pub fn load_candles<S: Number>(rows: &[Vec<Option<String>>]) -> (r: Vec<Candle<S>>)
    ensures
        r@ == row_candles::<S>(table_texts(rows@)),
{
    let mut candles: Vec<Candle<S>> = Vec::new();
    let ghost table = table_texts(rows@);
    let mut i: usize = 0;
    assert(candles@ =~= row_candles::<S>(table.take(0)));
    while i < rows.len()
        invariant
            i <= rows@.len(),
            table == table_texts(rows@),
            candles@ == row_candles::<S>(table.take(i as int)),
        decreases rows.len() - i,
    {
        assert(table.take(i + 1).drop_last() =~= table.take(i as int));
        let row = &rows[i];
        let open = read_cell::<S>(row, 1);
        let high = read_cell::<S>(row, 2);
        let low = read_cell::<S>(row, 3);
        let close = read_cell::<S>(row, 4);
        if let (Some(open), Some(high), Some(low), Some(close)) = (open, high, low, close) {
            if !high.lt(low) && !close.le(S::from_u64(0)) {
                candles.push(Candle { open, high, low, close });
            }
        }
        i += 1;
    }
    assert(table.take(i as int) =~= table);
    candles
}

// What a tick does
/// The candles up to a tick, at most `n` before it.
pub open spec fn window<S>(candles: Seq<Candle<S>>, i: int, n: int) -> Seq<Candle<S>> {
    candles.subrange(
        if i < n {
            0
        } else {
            i - n
        },
        i + 1,
    )
}

/// The average range at a tick: over the candles before it, and at least three
/// per mille of the price; half a percent of the price at the first tick.
pub open spec fn range_at<S: Value>(candles: Seq<Candle<S>>, i: int, cap_pct: S) -> S {
    let price = candles[i].close;
    let w = window(candles, i, RANGE_CANDLES as int);
    if w.len() > 1 {
        larger(atr_of(w, w.len() - 1, cap_pct), price.prod(ratio(3, 1000)))
    } else {
        price.prod(ratio(5, 1000))
    }
}

/// The market at a tick: neutral but for the range, its regime and the wicks.
pub open spec fn market_at<S: Value>(candles: Seq<Candle<S>>, i: int, cap_pct: S) -> MarketState<
    S,
> {
    let price = candles[i].close;
    let atr = range_at(candles, i, cap_pct);
    MarketState {
        price,
        atr,
        rsi: S::count(50),
        ema9: price,
        ema20: price,
        ema21: price,
        ema50: price,
        trend: Trend::Neutral,
        trend_signal: TrendSignal::Caution,
        regime: regime_of(atr, price),
        spread_bps: S::count(5),
        wick_profile: WickProfile::of(window(candles, i, WICK_CANDLES - 1)),
    }
}

/// How far the range is from half a percent of the price, in percent of that; a
/// hundred before the first grid.
pub open spec fn range_change<S: Value>(last_rebuild: int, price: S, atr: S) -> S {
    if last_rebuild > 0 {
        let normal = price.prod(ratio(5, 1000));
        atr.diff(normal).size().quot(normal).prod(S::count(100))
    } else {
        S::count(100)
    }
}

/// Whether the backtest goes on, as a value.
pub ghost enum Phase {
    Active,
    PausedUntil(int),
    /// For good, and why.
    Stopped(Seq<char>),
}

/// A backtest under way.
pub ghost struct Backtest<S> {
    pub book: Book<S>,
    pub grid_id: u64,
    /// The latest fills, oldest first.
    pub history: Seq<Entry<S>>,
    pub risk: Risk<S>,
    pub phase: Phase,
    pub last_rebuild: int,
    pub grid: Option<Grid<S>>,
    /// The ticks at which a limit was reached, and why.
    pub notes: Seq<(int, Seq<char>)>,
    /// Now and then the tick, the price, the value and the number of trades.
    pub progress: Seq<(int, S, S, int)>,
}

impl<S: Value> Backtest<S> {
    /// The backtest before its first tick.
    pub open spec fn start(cfg: BotConfig<S>) -> Backtest<S> {
        Backtest {
            book: Book {
                capital: cfg.total_capital,
                base_held: S::count(0),
                buys: Set::empty(),
                sells: Set::empty(),
                total_slip: S::count(0),
                counter: 0,
            },
            grid_id: 0,
            history: Seq::empty(),
            risk: Risk::of(cfg),
            phase: Phase::Active,
            last_rebuild: 0,
            grid: None,
            notes: Seq::empty(),
            progress: Seq::empty(),
        }
    }

    /// Whether the grid is built anew at a tick: at the first one, when it is
    /// old enough, or when the range is far from normal.
    pub open spec fn rebuilds(self, tick: int, state: MarketState<S>, cfg: BotConfig<S>) -> bool {
        ||| tick == 1
        ||| tick - self.last_rebuild >= cfg.grid_rebuild_ticks
        ||| cfg.atr_rebuild_threshold_pct.below(
            range_change(self.last_rebuild, state.price, state.atr),
        )
    }

    /// The grid of a tick.
    pub open spec fn with_grid(
        self,
        tick: int,
        state: MarketState<S>,
        cfg: BotConfig<S>,
    ) -> Backtest<S> {
        if self.rebuilds(tick, state, cfg) {
            Backtest {
                grid: Some(grid_of(state, cfg.grid_levels)),
                last_rebuild: tick,
                ..self
            }
        } else {
            self
        }
    }

    /// The fills of a tick.
    pub open spec fn with_fills(self, state: MarketState<S>, cfg: BotConfig<S>) -> Backtest<S> {
        match self.grid {
            None => self,
            Some(grid) => {
                let levels = grid.levels;
                let t = FillTerms {
                    price: state.price,
                    pos_size: self.risk.size_of_position(self.book.capital, state),
                    state,
                    min_notional: cfg.min_notional_usdt,
                    base_slip: cfg.slippage_pct,
                };
                let book = book_in_grid(self.book, self.grid_id, levels);
                Backtest {
                    book: book_after(book, levels, t),
                    grid_id: grid_id_of(levels),
                    history: newest(
                        self.history + entries_of(fills_of(book, levels, t), state),
                        cfg.max_trade_history as nat,
                    ),
                    ..self
                }
            },
        }
    }

    /// The limits at the end of a tick: a pause lasts two rebuild periods.
    pub open spec fn with_limits(self, tick: int, price: S, cfg: BotConfig<S>) -> Backtest<S> {
        let val = worth(self.book, price);
        let verdict = self.risk.verdict_at(val);
        let seen = self.risk.seen(val);
        Backtest {
            risk: if tick % DAY_TICKS as int == 0 {
                seen.after_day(val)
            } else {
                seen
            },
            phase: match verdict {
                Verdict::Safety(_) => Phase::Stopped(backtest_reason(verdict)),
                Verdict::Clear => Phase::Active,
                _ => Phase::PausedUntil(tick + 2 * cfg.grid_rebuild_ticks),
            },
            notes: if verdict is Clear {
                self.notes
            } else {
                self.notes.push((tick, backtest_reason(verdict)))
            },
            progress: if tick % PROGRESS_TICKS as int == 0 {
                self.progress.push((tick, price, val, self.book.counter))
            } else {
                self.progress
            },
            ..self
        }
    }

    /// Whether a tick is left out: after a stop, and during a pause.
    pub open spec fn skips(self, tick: int) -> bool {
        match self.phase {
            Phase::Active => false,
            Phase::PausedUntil(until) => tick < until,
            Phase::Stopped(_) => true,
        }
    }

    /// The backtest after the tick of a candle.
    pub open spec fn after_tick(
        self,
        candles: Seq<Candle<S>>,
        i: int,
        cfg: BotConfig<S>,
    ) -> Backtest<S> {
        let tick = i + 1;
        if self.skips(tick) {
            self
        } else {
            let state = market_at(candles, i, cfg.atr_outlier_cap_pct);
            self.with_grid(tick, state, cfg).with_fills(state, cfg).with_limits(
                tick,
                state.price,
                cfg,
            )
        }
    }

    /// The backtest after the first `n` candles.
    pub open spec fn after(candles: Seq<Candle<S>>, n: nat, cfg: BotConfig<S>) -> Backtest<S>
        decreases n,
    {
        if n == 0 {
            Backtest::start(cfg)
        } else {
            Backtest::after(candles, (n - 1) as nat, cfg).after_tick(candles, n - 1, cfg)
        }
    }
}

// The backtest as it is run
/// The outcome of a backtest: the trader, the limits, and the ticks at which a
/// limit was reached.
pub struct BacktestRun<S> {
    pub paper: PaperTrader<S>,
    pub risk: RiskManager<S>,
    pub status: BacktestStatus,
    pub last_rebuild: u64,
    pub grid: Option<DynamicGrid<S>>,
    pub notes: Vec<(u64, String)>,
    pub progress: Vec<Progress<S>>,
}

/// How a backtest stood at a tick.
#[derive(Debug, Clone, Copy)]
pub struct Progress<S> {
    pub tick: u64,
    pub price: S,
    pub value: S,
    pub trades: u64,
}

/// The progress as values.
pub open spec fn progress_views<S>(progress: Seq<Progress<S>>) -> Seq<(int, S, S, int)> {
    Seq::new(
        progress.len(),
        |i: int|
            (
                progress[i].tick as int,
                progress[i].price,
                progress[i].value,
                progress[i].trades as int,
            ),
    )
}

/// The notes as values.
pub open spec fn note_views(notes: Seq<(u64, String)>) -> Seq<(int, Seq<char>)> {
    Seq::new(notes.len(), |i: int| (notes[i].0 as int, notes[i].1@))
}

impl<S: Value> BacktestRun<S> {
    pub open spec fn phase(self) -> Phase {
        match self.status {
            BacktestStatus::Active => Phase::Active,
            BacktestStatus::PausedUntilTick(until) => Phase::PausedUntil(until as int),
            BacktestStatus::Stopped(reason) => Phase::Stopped(reason@),
        }
    }

    /// Whether the run stands where a backtest stands.
    pub open spec fn shows(self, m: Backtest<S>) -> bool {
        &&& self.paper.book() == m.book
        &&& self.paper.grid_id == m.grid_id
        &&& history_shows(self.paper.trades@, m.history, self.paper.symbol@)
        &&& self.risk@ == m.risk
        &&& self.phase() == m.phase
        &&& self.last_rebuild == m.last_rebuild
        &&& match self.grid {
            None => m.grid is None,
            Some(g) => m.grid == Some(g@),
        }
        &&& note_views(self.notes@) == m.notes
        &&& progress_views(self.progress@) == m.progress
    }
}

impl<S: Number> BacktestRun<S> {
    /// The market at a tick.
    fn market(candles: &[Candle<S>], i: usize, cap_pct: S) -> (r: MarketState<S>)
        requires
            i < candles@.len(),
        ensures
            r == market_at(candles@, i as int, cap_pct),
    {
        let price = candles[i].close;
        let from = if i < RANGE_CANDLES {
            0
        } else {
            i - RANGE_CANDLES
        };
        let ranges = vstd::slice::slice_subrange(candles, from, i + 1);
        let atr = if ranges.len() > 1 {
            max_of(
                MarketAnalyzer::calc_atr(ranges, ranges.len() - 1, cap_pct),
                price.times(lit(3, 1000)),
            )
        } else {
            price.times(lit(5, 1000))
        };
        let from = if i < WICK_CANDLES - 1 {
            0
        } else {
            i - (WICK_CANDLES - 1)
        };
        let wicks = vstd::slice::slice_subrange(candles, from, i + 1);
        MarketState {
            price,
            atr,
            rsi: S::from_u64(50),
            ema9: price,
            ema20: price,
            ema21: price,
            ema50: price,
            trend: Trend::Neutral,
            trend_signal: TrendSignal::Caution,
            regime: MarketAnalyzer::regime(atr, price),
            spread_bps: S::from_u64(5),
            wick_profile: WickProfile::from_candles(wicks),
        }
    }

    /// Builds the grid anew where a tick asks for it.
    fn rebuild(&mut self, tick: u64, state: &MarketState<S>, cfg: &BotConfig<S>, Ghost(m): Ghost<
        Backtest<S>,
    >)
        requires
            old(self).shows(m),
            old(self).last_rebuild <= tick,
            old(self).grid matches Some(g) ==> g.levels@.len() <= cfg.grid_levels,
        ensures
            final(self).shows(m.with_grid(tick as int, *state, *cfg)),
            final(self).paper == old(self).paper,
            final(self).last_rebuild <= tick,
            final(self).grid matches Some(g) ==> g.levels@.len() <= cfg.grid_levels,
    {
        let force = tick == 1 || tick - self.last_rebuild >= cfg.grid_rebuild_ticks;
        let change = if self.last_rebuild > 0 {
            let normal = state.price.times(lit(5, 1000));
            state.atr.minus(normal).abs().over(normal).times(S::from_u64(100))
        } else {
            S::from_u64(100)
        };
        if force || cfg.atr_rebuild_threshold_pct.lt(change) {
            proof {
                law_grid_shape(*state, cfg.grid_levels);
            }
            self.grid = Some(DynamicGrid::build(state, cfg.grid_levels));
            self.last_rebuild = tick;
        }
    }

    /// Fills what the price of a tick makes due.
    fn fill(&mut self, state: &MarketState<S>, cfg: &BotConfig<S>, Ghost(m): Ghost<Backtest<S>>)
        requires
            old(self).shows(m),
            old(self).paper.wf(),
            old(self).paper.max_history == cfg.max_trade_history,
            cfg.max_trade_history > 0,
            old(self).paper.counter + cfg.grid_levels <= u64::MAX,
            old(self).grid matches Some(g) ==> g.levels@.len() <= cfg.grid_levels,
        ensures
            final(self).shows(m.with_fills(*state, *cfg)),
            final(self).paper.wf(),
            final(self).paper.max_history == cfg.max_trade_history,
            final(self).paper.symbol == old(self).paper.symbol,
            final(self).paper.counter <= old(self).paper.counter + cfg.grid_levels,
            final(self).grid == old(self).grid,
            final(self).last_rebuild == old(self).last_rebuild,
    {
        match &self.grid {
            None => {},
            Some(grid) => {
                let pos = self.risk.position_size(self.paper.capital, state);
                let ghost before = self.paper.trades@;
                let records = self.paper.simulate_fills(
                    grid,
                    state.price,
                    pos,
                    state,
                    cfg.min_notional_usdt,
                    cfg.slippage_pct,
                );
                proof {
                    let t = FillTerms {
                        price: state.price,
                        pos_size: pos,
                        state: *state,
                        min_notional: cfg.min_notional_usdt,
                        base_slip: cfg.slippage_pct,
                    };
                    let book = book_in_grid(m.book, m.grid_id, grid.levels@);
                    let fills = fills_of(book, grid.levels@, t);
                    let entries = entries_of(fills, *state);
                    assert forall|i: int| 0 <= i < entries.len() implies shows_entry(
                        #[trigger] records@[i],
                        entries[i],
                        self.paper.symbol@,
                    ) by {
                        assert(records_fill(records@[i], fills[i], self.paper.symbol@, *state));
                    }
                    lemma_history_grows(
                        before,
                        m.history,
                        records@,
                        entries,
                        self.paper.symbol@,
                        cfg.max_trade_history as nat,
                    );
                }
            },
        }
    }

    /// Holds the value against the limits.
    fn limit(&mut self, tick: u64, price: S, cfg: &BotConfig<S>, Ghost(m): Ghost<Backtest<S>>)
        requires
            old(self).shows(m),
            tick + 2 * cfg.grid_rebuild_ticks <= u64::MAX,
        ensures
            final(self).shows(m.with_limits(tick as int, price, *cfg)),
            final(self).paper == old(self).paper,
            final(self).grid == old(self).grid,
            final(self).last_rebuild == old(self).last_rebuild,
    {
        let val = self.paper.total_value(price);
        let (status, reason) = self.risk.evaluate_backtest(val, tick, cfg.grid_rebuild_ticks * 2);
        proof {
            lemma_reason_tells(m.risk.verdict_at(val));
        }
        if !reason.as_str().is_empty() {
            self.notes.push((tick, reason));
            assert(note_views(self.notes@) =~= m.notes.push(
                (tick as int, backtest_reason(m.risk.verdict_at(val))),
            ));
        }
        self.status = status;
        if tick % (DAY_TICKS as u64) == 0 {
            self.risk.record_daily_return(val);
        }
        if tick % PROGRESS_TICKS == 0 {
            self.progress.push(
                Progress { tick, price, value: val, trades: self.paper.counter },
            );
            assert(progress_views(self.progress@) =~= m.progress.push(
                (tick as int, price, val, m.book.counter),
            ));
        }
    }
}

/// The text of a verdict is empty only where no limit was reached.
proof fn lemma_reason_tells<S: Value>(verdict: Verdict<S>)
    ensures
        backtest_reason(verdict).len() == 0 <==> verdict is Clear,
{
    reveal_strlit("");
    reveal_strlit("%");
}

/// Runs the engine over candles, one tick for each, with the close as price.
pub fn run_backtest<S: Number>(candles: &[Candle<S>], cfg: &BotConfig<S>) -> (r: BacktestRun<S>)
    requires
        cfg.max_trade_history > 0,
        candles@.len() * cfg.grid_levels <= u64::MAX,
        candles@.len() + 2 * cfg.grid_rebuild_ticks <= u64::MAX,
    ensures
        r.shows(Backtest::after(candles@, candles@.len(), *cfg)),
        r.paper.wf(),
        r.paper.max_history == cfg.max_trade_history,
        r.paper.symbol@ == cfg.symbol@,
{
    let mut run = BacktestRun {
        paper: PaperTrader::new(cfg.total_capital, cfg.max_trade_history, cfg.symbol.as_str()),
        risk: RiskManager::new(cfg),
        status: BacktestStatus::Active,
        last_rebuild: 0,
        grid: None,
        notes: Vec::new(),
        progress: Vec::new(),
    };
    assert(run.shows(Backtest::start(*cfg))) by {
        assert(note_views(run.notes@) =~= Seq::empty());
        assert(progress_views(run.progress@) =~= Seq::empty());
    }
    let mut i: usize = 0;
    assert(0 * cfg.grid_levels == 0);
    while i < candles.len()
        invariant
            i <= candles@.len(),
            cfg.max_trade_history > 0,
            candles@.len() * cfg.grid_levels <= u64::MAX,
            candles@.len() + 2 * cfg.grid_rebuild_ticks <= u64::MAX,
            run.shows(Backtest::after(candles@, i as nat, *cfg)),
            run.paper.wf(),
            run.paper.max_history == cfg.max_trade_history,
            run.paper.symbol@ == cfg.symbol@,
            run.paper.counter <= i * cfg.grid_levels,
            run.last_rebuild <= i,
            run.grid matches Some(g) ==> g.levels@.len() <= cfg.grid_levels,
        decreases candles.len() - i,
    {
        let ghost m = Backtest::after(candles@, i as nat, *cfg);
        let tick: u64 = i as u64 + 1;
        proof {
            assert(i * cfg.grid_levels + cfg.grid_levels == (i + 1) * cfg.grid_levels)
                by (nonlinear_arith);
            assert((i + 1) * cfg.grid_levels <= candles@.len() * cfg.grid_levels)
                by (nonlinear_arith)
                requires
                    i + 1 <= candles@.len(),
                    0 <= cfg.grid_levels,
            ;
        }
        let skip = match &run.status {
            BacktestStatus::Active => false,
            BacktestStatus::PausedUntilTick(until) => tick < *until,
            BacktestStatus::Stopped(_) => true,
        };
        if !skip {
            let state = BacktestRun::market(candles, i, cfg.atr_outlier_cap_pct);
            run.rebuild(tick, &state, cfg, Ghost(m));
            let ghost m1 = m.with_grid(tick as int, state, *cfg);
            run.fill(&state, cfg, Ghost(m1));
            let ghost m2 = m1.with_fills(state, *cfg);
            run.limit(tick, state.price, cfg, Ghost(m2));
        }
        i += 1;
    }
    run
}

/// The closes of the candles.
pub fn closing_prices<S: Number>(candles: &[Candle<S>]) -> (r: Vec<S>)
    ensures
        r@ == closes(candles@),
{
    let mut prices: Vec<S> = Vec::new();
    let mut i: usize = 0;
    while i < candles.len()
        invariant
            i <= candles@.len(),
            prices@ == closes(candles@).take(i as int),
        decreases candles.len() - i,
    {
        prices.push(candles[i].close);
        i += 1;
        assert(prices@ =~= closes(candles@).take(i as int));
    }
    assert(prices@ =~= closes(candles@));
    prices
}

/// A backtest of recorded rows: the candles, what the optimizer found for each
/// of its targets, and the run with the configured one.
pub struct BacktestResult<S> {
    pub candles: Vec<Candle<S>>,
    pub optimizer: Vec<OptResult<S>>,
    pub run: BacktestRun<S>,
}

/// No row holds more than one candle.
proof fn lemma_candle_count<S: Value>(rows: Seq<Seq<Option<Seq<char>>>>)
    ensures
        row_candles::<S>(rows).len() <= rows.len(),
    decreases rows.len(),
{
    if rows.len() > 0 {
        lemma_candle_count::<S>(rows.drop_last());
    }
}

/// Whether the ticks and trades of a backtest over `n` rows can be counted.
pub open spec fn can_count<S: Value>(n: nat, cfg: BotConfig<S>) -> bool {
    &&& n * cfg.grid_levels <= usize::MAX
    &&& n + 2 * cfg.grid_rebuild_ticks <= u64::MAX
}

/// Whether a result is that of a backtest over rows; there is none where no row
/// holds a candle.
pub open spec fn tests_rows<S: Value>(
    r: Option<BacktestResult<S>>,
    rows: Seq<Seq<Option<Seq<char>>>>,
    cfg: BotConfig<S>,
) -> bool {
    let candles = row_candles::<S>(rows);
    match r {
        None => candles.len() == 0,
        Some(b) => {
            &&& candles.len() > 0
            &&& b.candles@ == candles
            &&& b.optimizer@.len() == targets::<S>().len()
            &&& forall|i: int|
                0 <= i < b.optimizer@.len() ==> reports(
                    #[trigger] b.optimizer@[i],
                    candles,
                    closes(candles),
                    cfg,
                    targets::<S>()[i],
                )
            &&& b.run.shows(Backtest::after(candles, candles.len(), cfg))
            &&& b.run.paper.wf()
            &&& b.run.paper.symbol@ == cfg.symbol@
        },
    }
}

/// Reads the rows, runs the optimizer on them and then the backtest; nothing
/// where no row holds a candle.
pub fn backtest_rows<S: Number>(rows: &[Vec<Option<String>>], cfg: &BotConfig<S>) -> (r: Option<
    BacktestResult<S>,
>)
    requires
        cfg.max_trade_history > 0,
        cfg.grid_rebuild_ticks > 0,
        can_count(rows@.len(), *cfg),
    ensures
        tests_rows(r, table_texts(rows@), *cfg),
{
    let candles = load_candles::<S>(rows);
    if candles.len() == 0 {
        return None;
    }
    let prices = closing_prices(candles.as_slice());
    proof {
        lemma_candle_count::<S>(table_texts(rows@));
        assert(candles@.len() * cfg.grid_levels <= rows@.len() * cfg.grid_levels)
            by (nonlinear_arith)
            requires
                candles@.len() <= rows@.len(),
                0 <= cfg.grid_levels,
        ;
        assert(candles@.len() * (2 * (cfg.grid_levels / 2)) <= candles@.len() * cfg.grid_levels)
            by (nonlinear_arith)
            requires
                2 * (cfg.grid_levels / 2) <= cfg.grid_levels,
        ;
    }
    let optimizer = auto_optimize(candles.as_slice(), prices.as_slice(), cfg);
    let run = run_backtest(candles.as_slice(), cfg);
    Some(BacktestResult { candles, optimizer, run })
}

/// Whether a result is that of a backtest over the rows of a recording, or the error where
/// there are no rows or too many to be counted.
pub open spec fn tests_recording<S: Value>(
    r: Result<Option<BacktestResult<S>>, String>,
    recording: Result<Seq<Seq<Option<Seq<char>>>>, Seq<char>>,
    cfg: BotConfig<S>,
) -> bool {
    match recording {
        Err(message) => r matches Err(e) && e@ == "JSON: "@ + message,
        Ok(rows) => if can_count(rows.len(), cfg) {
            r matches Ok(found) && tests_rows(found, rows, cfg)
        } else {
            r matches Err(e) && e@ == "Too many rows"@
        },
    }
}

/// The backtest of a recorded JSON text. It is an error where the text is no
/// array of arrays, and where the rows are too many to be counted.
pub fn backtest_text<S: Number>(text: &str, cfg: &BotConfig<S>) -> (r: Result<
    Option<BacktestResult<S>>,
    String,
>)
    requires
        cfg.max_trade_history > 0,
        cfg.grid_rebuild_ticks > 0,
    ensures
        tests_recording(r, json_rows(text@), *cfg),
{
    let rows = match parse_rows(text) {
        Ok(rows) => rows,
        Err(message) => {
            let mut e = "JSON: ".to_owned();
            e.append(message.as_str());
            return Err(e);
        },
    };
    let ticks = cfg.grid_rebuild_ticks;
    if rows.len().checked_mul(cfg.grid_levels).is_none() || ticks > u64::MAX / 2 || rows.len()
        as u64 > u64::MAX - 2 * ticks {
        return Err("Too many rows".to_owned());
    }
    Ok(backtest_rows(rows.as_slice(), cfg))
}

/// A pause keeps everything as it is until it is over, and a stop for good.
pub proof fn law_nothing_happens_while_skipping<S: Value>(
    m: Backtest<S>,
    candles: Seq<Candle<S>>,
    i: int,
    cfg: BotConfig<S>,
)
    requires
        m.skips(i + 1),
    ensures
        m.after_tick(candles, i, cfg) == m,
        m.phase is Stopped ==> m.after_tick(candles, i, cfg).skips(i + 2),
{
}

/// The safety switch ends a backtest: what follows it changes nothing.
pub proof fn law_stop_is_final<S: Value>(
    candles: Seq<Candle<S>>,
    n: nat,
    m: nat,
    cfg: BotConfig<S>,
)
    requires
        n <= m,
        Backtest::after(candles, n, cfg).phase is Stopped,
    ensures
        Backtest::after(candles, m, cfg) == Backtest::after(candles, n, cfg),
    decreases m - n,
{
    if n < m {
        law_stop_is_final(candles, n, (m - 1) as nat, cfg);
    }
}

/// The ticks of notes rise, and none is later than a tick.
pub open spec fn notes_rise(notes: Seq<(int, Seq<char>)>, tick: int) -> bool {
    &&& forall|i: int| 0 <= i < notes.len() ==> 1 <= (#[trigger] notes[i]).0 <= tick
    &&& forall|i: int, j: int|
        0 <= i < j < notes.len() ==> (#[trigger] notes[i]).0 < (#[trigger] notes[j]).0
}

/// What holds of a backtest after any number of candles: no level is filled on
/// both sides, the history is within its size and within the number of trades,
/// no grid is from a later tick, there is a grid from the first tick on, the notes
/// are in the order of their ticks, and a stop has the text of the last note.
pub proof fn law_backtest_stays_sound<S: Value>(
    candles: Seq<Candle<S>>,
    n: nat,
    cfg: BotConfig<S>,
)
    ensures
        ({
            let m = Backtest::after(candles, n, cfg);
            &&& m.book.buys.disjoint(m.book.sells)
            &&& m.history.len() <= cfg.max_trade_history
            &&& m.history.len() <= m.book.counter
            &&& 0 <= m.last_rebuild <= n
            &&& n > 0 ==> m.grid is Some && m.last_rebuild > 0
            &&& notes_rise(m.notes, n as int)
            &&& m.phase matches Phase::Stopped(text) ==> m.notes.len() > 0 && m.notes.last().1
                == text
        }),
    decreases n,
{
    if n > 0 {
        law_backtest_stays_sound(candles, (n - 1) as nat, cfg);
        let m = Backtest::after(candles, (n - 1) as nat, cfg);
        let tick = n as int;
        if !m.skips(tick) {
            let state = market_at(candles, n - 1, cfg.atr_outlier_cap_pct);
            let g = m.with_grid(tick, state, cfg);
            let levels = (g.grid->0).levels;
            let book = book_in_grid(g.book, g.grid_id, levels);
            let t = FillTerms {
                price: state.price,
                pos_size: g.risk.size_of_position(g.book.capital, state),
                state,
                min_notional: cfg.min_notional_usdt,
                base_slip: cfg.slippage_pct,
            };
            law_fills_account_for_book(book, levels, t);
            law_sides_stay_disjoint(book, levels, t);
        }
    }
}

/// The range at a tick is not negative where the price is not.
proof fn lemma_range_not_negative<S: Total>(candles: Seq<Candle<S>>, i: int, cap_pct: S)
    requires
        !candles[i].close.below(S::count(0)),
    ensures
        !range_at(candles, i, cap_pct).below(S::count(0)),
{
    let price = candles[i].close;
    let w = window(candles, i, RANGE_CANDLES as int);
    S::law_positive_ratio(3, 1000);
    S::law_positive_ratio(5, 1000);
    S::law_strict(S::count(0), ratio(3, 1000));
    S::law_strict(S::count(0), ratio(5, 1000));
    S::law_prod(price, ratio(3, 1000));
    S::law_prod(price, ratio(5, 1000));
    let (a, b) = (atr_of(w, w.len() - 1, cap_pct), price.prod(ratio(3, 1000)));
    law_larger(a, b);
    lemma_not_below_chain(larger(a, b), b, S::count(0));
}

/// A backtest never owes: where it starts with capital and buys for a share of it,
/// and no close is under one, neither the capital nor the holdings are negative at
/// any tick.
pub proof fn law_backtest_stays_solvent<S: Total>(
    candles: Seq<Candle<S>>,
    n: nat,
    cfg: BotConfig<S>,
)
    requires
        n <= candles.len(),
        !cfg.total_capital.below(S::count(0)),
        !cfg.max_single_trade_pct.below(S::count(0)),
        forall|i: int|
            0 <= i < candles.len() ==> !(#[trigger] candles[i]).close.below(S::count(1)),
    ensures
        ({
            let m = Backtest::after(candles, n, cfg);
            &&& is_solvent(m.book)
            &&& m.grid matches Some(g) ==> prices_are_positive(g.levels)
            &&& m.risk.single_trade == cfg.max_single_trade_pct
        }),
    decreases n,
{
    if n == 0 {
        law_fresh_account_is_solvent(Backtest::start(cfg).book);
    } else {
        let i = n - 1;
        law_backtest_stays_solvent(candles, i as nat, cfg);
        let m = Backtest::after(candles, i as nat, cfg);
        let state = market_at(candles, i, cfg.atr_outlier_cap_pct);
        assert(!candles[i].close.below(S::count(1)));
        S::law_one();
        S::law_strict(S::count(0), S::count(1));
        lemma_not_below_chain(state.price, S::count(1), S::count(0));
        lemma_range_not_negative(candles, i, cfg.atr_outlier_cap_pct);
        law_levels_have_positive_prices(state, cfg.grid_levels);
        law_position_is_not_negative(m.risk, m.book.capital, state);
        let g = m.with_grid(n as int, state, cfg);
        if let Some(grid) = g.grid {
            let t = FillTerms {
                price: state.price,
                pos_size: m.risk.size_of_position(m.book.capital, state),
                state,
                min_notional: cfg.min_notional_usdt,
                base_slip: cfg.slippage_pct,
            };
            law_account_stays_solvent(
                book_in_grid(m.book, m.grid_id, grid.levels),
                grid.levels,
                t,
            );
        }
    }
}

} // verus!
