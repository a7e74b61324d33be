//! A live or paper session, tick by tick: when to look at the market again,
//! when to wait, when to stop, and what to trade.
use vstd::arithmetic::power2::{lemma2_to64, lemma_pow2_strictly_increases};
use vstd::arithmetic::power2::{lemma_pow2_unfold, pow2};
use vstd::prelude::*;

use crate::config::BotConfig;
use crate::course::law_fresh_account_is_solvent;
use crate::grid::{grid_of, law_levels_have_positive_prices, DynamicGrid};
use crate::models::{GridLevel, MarketState, Side, TradeRecord, TradingStatus};
use crate::number::{Number, Total, Value};
use crate::paper::{book_after, count_side, fills_of, grid_id_of, newest, records_fill};
use crate::paper::{is_solvent, law_account_stays_solvent, prices_are_positive};
use crate::paper::{FillTerms, PaperTrader};
use crate::risk::{drawdown_from, is_stormy, law_position_is_not_negative, live_reason};
use crate::risk::{Risk, RiskManager, Verdict};
use crate::risk::{BEARISH_PAUSE_MS, LIMIT_PAUSE_MS};
use crate::stamp::{is_random_id, is_time};

verus! {

/// The ticks of a day in a live session.
pub const LIVE_DAY_TICKS: u64 = 14_400;

/// How many ticks stand for a second.
pub const TICKS_PER_SEC: u64 = 10;

/// The figures of a status line.
#[derive(Debug, Clone, Copy)]
pub struct StatusLine<S> {
    pub price: S,
    pub value: S,
    pub pnl_pct: S,
    pub drawdown_pct: S,
    pub trades: u64,
    pub buys: usize,
    pub sells: usize,
}

/// What a tick of trading asks for.
pub struct TickReport<S> {
    /// The trades of the tick.
    pub records: Vec<TradeRecord<S>>,
    /// Whether each trade goes to the exchange as an order.
    pub place_orders: bool,
    /// Whether each trade goes to the followers.
    pub broadcast: bool,
    /// The status line, where one is due.
    pub status: Option<StatusLine<S>>,
}

/// What a tick came to.
pub enum LiveStep<S> {
    /// Nothing to do: paused, or no view of the market yet.
    Waiting,
    /// The safety switch tripped, and the session is over.
    Halted(String),
    /// Trading rests until an instant, in milliseconds.
    Paused { until: u64, reason: String },
    Traded(TickReport<S>),
}

/// Whether a session can run with a configuration: its periods and its history
/// are not empty, and the period of the status line can be counted.
pub open spec fn can_run<S: Value>(cfg: BotConfig<S>) -> bool {
    &&& cfg.grid_rebuild_ticks > 0
    &&& cfg.max_trade_history > 0
    &&& 0 < cfg.status_secs <= u64::MAX / TICKS_PER_SEC
}

/// Whether a session can run with a configuration.
pub fn is_runnable<S: Number>(cfg: &BotConfig<S>) -> (r: bool)
    ensures
        r == can_run(*cfg),
{
    cfg.grid_rebuild_ticks > 0 && cfg.max_trade_history > 0 && cfg.status_secs > 0
        && cfg.status_secs <= u64::MAX / TICKS_PER_SEC
}

/// A configuration taken up by a running session: the pair and the capital stay
/// what they were at the start. The live mode can be left, but none entered.
pub open spec fn taken_up<S: Value>(old_cfg: BotConfig<S>, new_cfg: BotConfig<S>) -> BotConfig<S> {
    BotConfig {
        symbol: old_cfg.symbol,
        total_capital: old_cfg.total_capital,
        mode: if old_cfg.mode@ == "live"@ {
            new_cfg.mode
        } else {
            old_cfg.mode
        },
        ..new_cfg
    }
}

pub struct LiveSession<S> {
    pub cfg: BotConfig<S>,
    pub risk: RiskManager<S>,
    pub paper: PaperTrader<S>,
    pub state: Option<MarketState<S>>,
    pub grid: Option<DynamicGrid<S>>,
    pub tick: u64,
    pub cycle: u64,
    pub paused_until: Option<u64>,
}

impl<S: Value> LiveStep<S> {
    /// Whether a step asks for orders at the exchange.
    pub open spec fn asks_orders(self) -> bool {
        self matches LiveStep::Traded(report) && report.place_orders
    }
}

impl<S: Value> LiveSession<S> {
    /// Whether a session may become `after` in one call that asks for orders or
    /// does not: the live mode is not entered, orders need it, and the account
    /// moves as one call moves it.
    pub open spec fn may_become(self, after: Self, orders: bool) -> bool {
        &&& self.cfg.mode@ != "live"@ ==> after.cfg.mode@ == self.cfg.mode@
        &&& orders ==> self.cfg.mode@ == "live"@
        &&& self.keeps_account(after) || self.trades_into(after)
    }

    /// Whether nothing was traded: the account is as before, the grid is too unless
    /// it is built for the view of the market, and so is the share of a trade unless
    /// it is a sound one.
    pub open spec fn keeps_account(self, after: Self) -> bool {
        &&& after.paper.book() == self.paper.book()
        &&& after.grid == self.grid || exists|n: usize| after.has_grid_of(n)
        &&& after.risk@.single_trade == self.risk@.single_trade || S::count(0).below(
            after.risk@.single_trade,
        )
    }

    /// Whether the grid is one for the view of the market.
    pub open spec fn has_grid_of(self, n: usize) -> bool {
        self.state matches Some(state) && self.grid matches Some(g) && g@ == grid_of(state, n)
    }

    /// Whether the grid was traded at some price in some market.
    pub open spec fn trades_into(self, after: Self) -> bool {
        &&& after.grid == self.grid
        &&& self.grid matches Some(g) && exists|
            report: TickReport<S>,
            price: S,
            state: MarketState<S>,
        | self.trades_to(after, report, price, state, g.levels@)
    }

    /// Whether the account has no debts and can make none: every level has a
    /// positive price, and a trade is worth a share of the capital.
    pub open spec fn owes_nothing(self) -> bool {
        &&& is_solvent(self.paper.book())
        &&& !self.risk@.single_trade.below(S::count(0))
        &&& self.grid matches Some(g) ==> prices_are_positive(g.levels@)
    }

    /// Whether the view of the market is one with a price of one or more and a
    /// range.
    pub open spec fn sees_market(self) -> bool {
        self.state matches Some(state) ==> !state.price.below(S::count(1)) && !state.atr.below(
            S::count(0),
        )
    }

    pub open spec fn wf(self) -> bool {
        &&& can_run(self.cfg)
        &&& self.paper.wf()
        &&& self.paper.max_history == self.cfg.max_trade_history
        &&& self.paper.symbol@ == self.cfg.symbol@
        &&& self.cycle <= self.tick
    }

    /// Whether the session rests at an instant.
    pub open spec fn rests(self, now: u64) -> bool {
        self.paused_until matches Some(until) && now < until
    }

    /// The limits after a tick that traded.
    pub open spec fn risk_after(self, value: S) -> Risk<S> {
        if self.tick % LIVE_DAY_TICKS == 0 {
            self.risk@.seen(value).after_day(value)
        } else {
            self.risk@.seen(value)
        }
    }

    /// The terms of the fills at a price.
    pub open spec fn terms(self, price: S, state: MarketState<S>) -> FillTerms<S> {
        FillTerms {
            price,
            pos_size: self.risk@.seen(self.paper.value_at(price)).size_of_position(
                self.paper.capital,
                state,
            ),
            state,
            min_notional: self.cfg.min_notional_usdt,
            base_slip: self.cfg.slippage_pct,
        }
    }

    /// Whether the session traded from `self` to `after`, and reports it.
    pub open spec fn trades_to(
        self,
        after: Self,
        report: TickReport<S>,
        price: S,
        state: MarketState<S>,
        levels: Seq<GridLevel<S>>,
    ) -> bool {
        let value = self.paper.value_at(price);
        let t = self.terms(price, state);
        let start = self.paper.book_for(levels);
        let fills = fills_of(start, levels, t);
        &&& after.paper.book() == book_after(start, levels, t)
        &&& after.paper.trades@ == newest(
            self.paper.trades@ + report.records@,
            self.cfg.max_trade_history as nat,
        )
        &&& after.paper.grid_id == grid_id_of(levels)
        &&& after.risk@ == self.risk_after(value)
        &&& report.records@.len() == fills.len()
        &&& forall|i: int|
            0 <= i < fills.len() ==> records_fill(
                #[trigger] report.records@[i],
                fills[i],
                self.cfg.symbol@,
                state,
            ) && is_random_id(report.records@[i].id@) && is_time(report.records@[i].time@)
        &&& report.place_orders == (self.cfg.mode@ == "live"@)
        &&& report.broadcast == self.cfg.copy_trade_enabled
        &&& match report.status {
            None => self.tick % (self.cfg.status_secs * TICKS_PER_SEC) as u64 != 0,
            Some(line) => {
                &&& self.tick % (self.cfg.status_secs * TICKS_PER_SEC) as u64 == 0
                &&& line.price == price
                &&& line.value == value
                &&& line.pnl_pct == value.diff(self.cfg.total_capital).quot(
                    self.cfg.total_capital,
                ).prod(S::count(100))
                &&& line.drawdown_pct == drawdown_from(self.risk@.seen(value).peak, value)
                &&& line.trades == after.paper.counter
                &&& line.buys == count_side(after.paper.trades@, Side::Buy)
                &&& line.sells == count_side(after.paper.trades@, Side::Sell)
            },
        }
    }

    /// Whether a session becomes `after` at a price and an instant, and what the step
    /// comes to.
    pub open spec fn steps_to(self, price: S, now: u64, after: Self, r: LiveStep<S>) -> bool {
        &&& after.cfg == self.cfg
        &&& after.state == self.state
        &&& after.grid == self.grid
        &&& after.tick == self.tick
        &&& after.cycle == self.cycle
        &&& self.rests(now) ==> r is Waiting && after == self
        &&& !self.rests(now) ==> match (self.state, self.grid) {
            (Some(state), Some(grid)) => {
                let value = self.paper.value_at(price);
                match self.risk@.verdict_at(value) {
                    Verdict::Safety(dd) => {
                        &&& r matches LiveStep::Halted(reason) && reason@ == live_reason(
                            Verdict::Safety(dd),
                            self.risk@.safety,
                        )
                        &&& after.paused_until is None
                        &&& after.paper == self.paper
                        &&& after.risk@ == self.risk@.seen(value)
                    },
                    Verdict::Clear => if is_stormy(state) {
                        &&& r matches LiveStep::Paused { until, reason } && until == now
                            + BEARISH_PAUSE_MS && reason@ == "⚠️ Bearish + High Vol"@
                            && after.paused_until == Some(until)
                        &&& after.paper == self.paper
                        &&& after.risk@ == self.risk@.seen(value)
                    } else {
                        &&& r matches LiveStep::Traded(report) && self.trades_to(
                            after,
                            report,
                            price,
                            state,
                            grid.levels@,
                        )
                        &&& after.paused_until is None
                    },
                    verdict => {
                        &&& r matches LiveStep::Paused { until, reason } && until == now
                            + LIMIT_PAUSE_MS && reason@ == live_reason(
                            verdict,
                            self.risk@.safety,
                        ) && after.paused_until == Some(until)
                        &&& after.paper == self.paper
                        &&& after.risk@ == self.risk@.seen(value)
                    },
                }
            },
            _ => {
                &&& r is Waiting
                &&& after.paused_until is None
                &&& after.paper == self.paper
                &&& after.risk == self.risk
            },
        }
    }

    /// Whether the session stands before its first tick.
    pub open spec fn begins_under(self, cfg: BotConfig<S>) -> bool {
        &&& self.cfg == cfg
        &&& self.risk@ == Risk::of(cfg)
        &&& self.paper.begins_with(cfg.total_capital, cfg.max_trade_history, cfg.symbol@)
        &&& self.state is None
        &&& self.grid is None
        &&& self.tick == 0
        &&& self.cycle == 0
        &&& self.paused_until is None
    }

    /// Whether a tick begins, with a look at the market or without: it is counted, and a
    /// look is counted as a cycle.
    pub open spec fn begins(self, after: Self, due: bool) -> bool {
        &&& due == self.looks_next()
        &&& after.tick == self.tick + 1
        &&& after.cycle == self.cycle + (if due {
            1int
        } else {
            0
        })
        &&& after.cfg == self.cfg
        &&& after.risk == self.risk
        &&& after.paper == self.paper
        &&& after.state == self.state
        &&& after.grid == self.grid
        &&& after.paused_until == self.paused_until
    }

    /// Whether a view of the market is taken up, with its grid.
    pub open spec fn views(self, after: Self, state: MarketState<S>) -> bool {
        &&& after.state == Some(state)
        &&& after.grid matches Some(g) && g@ == grid_of(state, self.cfg.grid_levels)
        &&& after.cfg == self.cfg
        &&& after.risk == self.risk
        &&& after.paper == self.paper
        &&& after.tick == self.tick
        &&& after.cycle == self.cycle
        &&& after.paused_until == self.paused_until
    }

    /// Whether a configuration is taken up, or left aside where it has a fault or no
    /// session can run with it.
    pub open spec fn takes_configuration(
        self,
        after: Self,
        cfg: BotConfig<S>,
        key: Seq<char>,
        secret: Seq<char>,
        taken: bool,
    ) -> bool {
        let next = taken_up(self.cfg, cfg);
        &&& taken == (next.is_sound(key, secret) && can_run(next))
        &&& taken ==> {
            &&& after.cfg == next
            &&& after.risk@ == self.risk@.under(next)
            &&& after.paper.trades@ == newest(
                self.paper.trades@,
                next.max_trade_history as nat,
            )
        }
        &&& !taken ==> after == self
        &&& after.paper.book() == self.paper.book()
        &&& after.paper.grid_id == self.paper.grid_id
        &&& after.paper.symbol == self.paper.symbol
        &&& after.state == self.state
        &&& after.grid == self.grid
        &&& after.tick == self.tick
        &&& after.cycle == self.cycle
        &&& after.paused_until == self.paused_until
    }

    /// The seconds to wait after a failed look, the looks counted from zero.
    pub open spec fn wait_for(self, attempt: nat) -> int {
        self.cfg.retry_base_sec * pow2(attempt)
    }

    /// Whether the market is looked at once more after some failed looks.
    pub open spec fn looks_again(self, failures: u32) -> bool {
        failures < self.cfg.max_retries
    }

    /// Whether the market is looked at with the next tick: at the first one, and then
    /// once in every rebuild period.
    pub open spec fn looks_next(self) -> bool {
        self.tick % self.cfg.grid_rebuild_ticks == 0
    }
}

impl<S: Number> LiveSession<S> {
    /// A session before its first tick.
    pub fn new(cfg: BotConfig<S>) -> (r: Self)
        requires
            can_run(cfg),
        ensures
            r.wf(),
            r.begins_under(cfg),
    {
        LiveSession {
            risk: RiskManager::new(&cfg),
            paper: PaperTrader::new(cfg.total_capital, cfg.max_trade_history, cfg.symbol.as_str()),
            state: None,
            grid: None,
            tick: 0,
            cycle: 0,
            paused_until: None,
            cfg,
        }
    }

    /// Counts a tick; says whether the market is looked at again with it, which is
    /// so at the first tick and then once in every rebuild period. That begins a
    /// cycle.
    pub fn begin_tick(&mut self) -> (due: bool)
        requires
            old(self).wf(),
            old(self).tick < u64::MAX,
        ensures
            final(self).wf(),
            old(self).may_become(*final(self), false),
            old(self).begins(*final(self), due),
    {
        let due = self.tick % self.cfg.grid_rebuild_ticks == 0;
        self.tick += 1;
        if due {
            self.cycle += 1;
        }
        due
    }

    /// The seconds to wait after a failed look at the market: the base wait,
    /// doubled with each attempt.
    pub fn retry_wait(&self, attempt: u32) -> (r: u64)
        requires
            attempt < 64,
            self.cfg.retry_base_sec * pow2(attempt as nat) <= u64::MAX,
        ensures
            r == self.wait_for(attempt as nat),
    {
        let mut factor: u64 = 1;
        let mut i: u32 = 0;
        proof {
            lemma2_to64();
        }
        while i < attempt
            invariant
                i <= attempt,
                attempt < 64,
                factor == pow2(i as nat),
            decreases attempt - i,
        {
            proof {
                lemma_pow2_unfold((i + 1) as nat);
                lemma2_to64();
                if i + 1 < 63 {
                    lemma_pow2_strictly_increases((i + 1) as nat, 63);
                }
                assert(pow2(63) <= u64::MAX) by {
                    lemma_pow2_unfold(64);
                }
            }
            factor = factor * 2;
            i += 1;
        }
        self.cfg.retry_base_sec * factor
    }

    /// Whether the market may be looked at once more, after some failed looks.
    pub fn may_look(&self, failures: u32) -> (r: bool)
        ensures
            r == self.looks_again(failures),
    {
        failures < self.cfg.max_retries
    }

    /// The seconds to wait after a look that failed, the looks counted from zero;
    /// nothing where that look was one too many.
    pub fn after_failure(&self, attempt: u32) -> (r: Option<u64>)
        requires
            attempt < self.cfg.max_retries ==> attempt < 64 && self.cfg.retry_base_sec * pow2(
                attempt as nat,
            ) <= u64::MAX,
        ensures
            r == if self.looks_again(attempt) {
                Some(self.wait_for(attempt as nat) as u64)
            } else {
                None
            },
    {
        if self.may_look(attempt) {
            Some(self.retry_wait(attempt))
        } else {
            None
        }
    }

    /// Takes up a view of the market, and builds its grid.
    pub fn install(&mut self, state: MarketState<S>)
        requires
            old(self).wf(),
        ensures
            final(self).wf(),
            old(self).may_become(*final(self), false),
            old(self).views(*final(self), state),
    {
        self.grid = Some(DynamicGrid::build(&state, self.cfg.grid_levels));
        self.state = Some(state);
        assert(self.has_grid_of(self.cfg.grid_levels));
    }

    /// Takes up another configuration without a restart, but for the pair and the
    /// capital, which stay, and for a mode other than live, which stays too. One with
    /// a fault, or with which no session can run, is left aside.
    pub fn reload(&mut self, cfg: BotConfig<S>, key: &str, secret: &str) -> (taken: bool)
        requires
            old(self).wf(),
        ensures
            final(self).wf(),
            old(self).may_become(*final(self), false),
            old(self).takes_configuration(*final(self), cfg, key@, secret@, taken),
    {
        let next = BotConfig {
            symbol: self.cfg.symbol.clone(),
            total_capital: self.cfg.total_capital,
            mode: if self.cfg.is_live() {
                cfg.mode
            } else {
                self.cfg.mode.clone()
            },
            ..cfg
        };
        if next.validate(key, secret).len() > 0 || !is_runnable(&next) {
            return false;
        }
        self.risk.reconfigure(&next);
        self.paper.resize_history(next.max_trade_history);
        self.cfg = next;
        true
    }

    /// What a price at an instant leads to: nothing while the session rests or
    /// has no view of the market; else the limits are looked at, and where none
    /// is reached the grid is traded.
    pub fn step(&mut self, price: S, now: u64) -> (r: LiveStep<S>)
        requires
            old(self).wf(),
            now <= u64::MAX - LIMIT_PAUSE_MS,
            old(self).grid matches Some(g) ==> old(self).paper.counter + g.levels@.len()
                <= u64::MAX,
        ensures
            final(self).wf(),
            old(self).may_become(*final(self), r.asks_orders()),
            old(self).steps_to(price, now, *final(self), r),
    {
        if let Some(until) = self.paused_until {
            if now < until {
                return LiveStep::Waiting;
            }
            self.paused_until = None;
        }
        let state = match self.state {
            Some(state) => state,
            None => return LiveStep::Waiting,
        };
        let value = self.paper.total_value(price);
        let (status, reason) = match &self.grid {
            Some(_) => self.risk.evaluate_live(value, &state, now),
            None => return LiveStep::Waiting,
        };
        match status {
            TradingStatus::SafetySwitchTripped { reason } => LiveStep::Halted(reason),
            TradingStatus::PausedUntil(until) => {
                self.paused_until = Some(until);
                LiveStep::Paused { until, reason }
            },
            TradingStatus::Active => {
                let pos = self.risk.position_size(self.paper.capital, &state);
                let records = match &self.grid {
                    Some(grid) => self.paper.simulate_fills(
                        grid,
                        price,
                        pos,
                        &state,
                        self.cfg.min_notional_usdt,
                        self.cfg.slippage_pct,
                    ),
                    None => Vec::new(),
                };
                let status = if self.tick % (self.cfg.status_secs * TICKS_PER_SEC) == 0 {
                    let (trades, buys, sells, _volume, _slip) = self.paper.stats();
                    let capital = self.cfg.total_capital;
                    Some(
                        StatusLine {
                            price,
                            value,
                            pnl_pct: value.minus(capital).over(capital).times(S::from_u64(100)),
                            drawdown_pct: self.risk.drawdown_pct(value),
                            trades,
                            buys,
                            sells,
                        },
                    )
                } else {
                    None
                };
                if self.tick % LIVE_DAY_TICKS == 0 {
                    self.risk.record_daily_return(value);
                }
                let report = TickReport {
                    records,
                    place_orders: self.cfg.is_live(),
                    broadcast: self.cfg.copy_trade_enabled,
                    status,
                };
                assert(old(self).trades_to(
                    *self,
                    report,
                    price,
                    state,
                    (self.grid->0).levels@,
                ));
                LiveStep::Traded(report)
            },
        }
    }
}

/// A tick that trades hands orders to the exchange only in live mode; in paper
/// mode it hands out none.
pub proof fn law_orders_need_live_mode<S: Value>(
    before: LiveSession<S>,
    after: LiveSession<S>,
    report: TickReport<S>,
    price: S,
    state: MarketState<S>,
    levels: Seq<GridLevel<S>>,
)
    requires
        before.trades_to(after, report, price, state, levels),
    ensures
        report.place_orders ==> before.cfg.mode@ == "live"@,
        before.cfg.mode@ == "paper"@ ==> !report.place_orders,
{
    crate::config::law_modes_exclude_each_other(before.cfg);
}

/// Whether a session went through states, one call after the other, with or
/// without orders asked for.
pub open spec fn is_session<S: Value>(states: Seq<LiveSession<S>>, orders: Seq<bool>) -> bool {
    &&& states.len() == orders.len() + 1
    &&& forall|i: int|
        0 <= i < orders.len() ==> (#[trigger] states[i]).may_become(states[i + 1], orders[i])
}

/// A session outside live mode never asks for orders, over all its calls, with
/// whatever configurations are taken up under way.
pub proof fn law_session_outside_live_mode_asks_no_orders<S: Value>(
    states: Seq<LiveSession<S>>,
    orders: Seq<bool>,
    i: int,
)
    requires
        is_session(states, orders),
        states[0].cfg.mode@ != "live"@,
        0 <= i < orders.len(),
    ensures
        !orders[i],
        states[i].cfg.mode@ == states[0].cfg.mode@,
    decreases i,
{
    if i > 0 {
        law_session_outside_live_mode_asks_no_orders(states, orders, i - 1);
        assert(states[i - 1].may_become(states[i - 1 + 1], orders[i - 1]));
    }
    assert(states[i].may_become(states[i + 1], orders[i]));
}

/// A session that starts with capital, of which a trade is worth a share, owes
/// nothing.
pub proof fn law_fresh_session_owes_nothing<S: Total>(s: LiveSession<S>)
    requires
        !s.cfg.total_capital.below(S::count(0)),
        !s.cfg.max_single_trade_pct.below(S::count(0)),
        s.risk@ == Risk::of(s.cfg),
        s.paper.capital == s.cfg.total_capital,
        s.paper.base_held == S::count(0),
        s.grid is None,
    ensures
        s.owes_nothing(),
{
    law_fresh_account_is_solvent(s.paper.book());
}

/// A session never owes: over all its calls neither the capital nor the holdings
/// are negative, as long as no view of the market has a price under one or a
/// negative range.
pub proof fn law_session_stays_solvent<S: Total>(
    states: Seq<LiveSession<S>>,
    orders: Seq<bool>,
    i: int,
)
    requires
        is_session(states, orders),
        states[0].owes_nothing(),
        forall|j: int| 0 <= j < states.len() ==> (#[trigger] states[j]).sees_market(),
        0 <= i < states.len(),
    ensures
        states[i].owes_nothing(),
    decreases i,
{
    if i > 0 {
        law_session_stays_solvent(states, orders, i - 1);
        let (before, after) = (states[i - 1], states[i]);
        assert(states[i - 1].may_become(states[i - 1 + 1], orders[i - 1]));
        assert(after.sees_market());
        S::law_strict(S::count(0), after.risk@.single_trade);
        if before.keeps_account(after) {
            if after.grid != before.grid {
                let n = choose|n: usize| after.has_grid_of(n);
                law_levels_have_positive_prices(after.state->0, n);
            }
        } else {
            let levels = (before.grid->0).levels@;
            let (report, price, state) = choose|
                report: TickReport<S>,
                price: S,
                state: MarketState<S>,
            | before.trades_to(after, report, price, state, levels);
            let t = before.terms(price, state);
            law_position_is_not_negative(
                before.risk@.seen(before.paper.value_at(price)),
                before.paper.capital,
                state,
            );
            law_account_stays_solvent(before.paper.book_for(levels), levels, t);
        }
    }
}

} // verus!
