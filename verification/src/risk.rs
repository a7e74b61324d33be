//! Risk management: position sizes, drawdown and the limits that stop or pause
//! trading.
use vstd::prelude::*;

use crate::config::BotConfig;
use crate::models::{MarketState, Regime, TradingStatus, TrendSignal};
use crate::number::{lit, ratio, Number, Ordered, Total, Value};
use crate::number::lemma_counts;

verus! {

/// The pause after a limit was reached in live trading, in milliseconds.
pub const LIMIT_PAUSE_MS: u64 = 300_000;

/// The pause in a falling and volatile market, in milliseconds.
pub const BEARISH_PAUSE_MS: u64 = 60_000;

/// Whether a backtest goes on. A pause ends at a tick.
#[derive(Debug, Clone)]
pub enum BacktestStatus {
    Active,
    PausedUntilTick(u64),
    Stopped(String),
}

impl BacktestStatus {
    pub fn is_active(&self) -> (r: bool)
        ensures
            r == (self is Active),
    {
        matches!(self, BacktestStatus::Active)
    }

    pub fn is_stopped(&self) -> (r: bool)
        ensures
            r == (self is Stopped),
    {
        matches!(self, BacktestStatus::Stopped(_))
    }
}

/// What the limits say of a portfolio value, with the percentage that reached
/// one.
#[derive(Debug, Clone, Copy)]
pub enum Verdict<S> {
    /// The drawdown is past the safety switch.
    Safety(S),
    StopLoss(S),
    MaxDrawdown(S),
    TakeProfit(S),
    Clear,
}

/// The limits and the course of the capital; shared by live trading and
/// backtests.
#[derive(Debug, Clone)]
pub struct RiskManager<S> {
    pub initial_capital: S,
    pub peak_capital: S,
    pub max_loss_pct: S,
    pub max_drawdown_pct: S,
    pub profit_target_pct: S,
    pub max_single_trade: S,
    pub safety_dd_pct: S,
    pub daily_returns: Vec<S>,
    /// The value at the last daily snapshot.
    pub prev_snapshot: S,
}

/// The factor of a regime on the position size.
pub open spec fn regime_share<S: Value>(regime: Regime) -> S {
    match regime {
        Regime::High => ratio(50, 100),
        Regime::Medium => ratio(75, 100),
        Regime::Low => S::count(1),
    }
}

/// The factor of an overbought or oversold market on the position size.
pub open spec fn rsi_share<S: Value>(rsi: S) -> S {
    if S::count(75).below(rsi) || rsi.below(S::count(25)) {
        ratio(60, 100)
    } else {
        S::count(1)
    }
}

/// A number rounded to four decimal places.
pub open spec fn to_four_places<S: Value>(x: S) -> S {
    x.prod(S::count(10_000)).nearest().quot(S::count(10_000))
}

pub fn four_places<S: Number>(x: S) -> (r: S)
    ensures
        r == to_four_places(x),
{
    x.times(S::from_u64(10_000)).round().over(S::from_u64(10_000))
}

/// The text of a verdict; the backtest leaves the safety threshold out.
pub open spec fn live_reason<S: Value>(verdict: Verdict<S>, safety_dd_pct: S) -> Seq<char> {
    match verdict {
        Verdict::Safety(dd) => "🔴 SAFETY SWITCH: DD "@ + dd.digits(2) + "% ≥ "@
            + safety_dd_pct.digits(1) + "%"@,
        _ => backtest_reason(verdict),
    }
}

pub open spec fn backtest_reason<S: Value>(verdict: Verdict<S>) -> Seq<char> {
    match verdict {
        Verdict::Safety(dd) => "🔴 SAFETY SWITCH: DD "@ + dd.digits(2) + "%"@,
        Verdict::StopLoss(loss) => "🛑 Stop Loss "@ + loss.digits(2) + "%"@,
        Verdict::MaxDrawdown(dd) => "🛑 Max Drawdown "@ + dd.digits(2) + "%"@,
        Verdict::TakeProfit(pft) => "✅ Take Profit "@ + pft.digits(2) + "%"@,
        Verdict::Clear => ""@,
    }
}

/// A percentage behind a heading.
fn percent_text<S: Number>(heading: &str, pct: S) -> (r: String)
    ensures
        r@ == heading@ + pct.digits(2) + "%"@,
{
    let mut r = heading.to_owned();
    r.append(pct.to_text(2).as_str());
    r.append("%");
    r
}

fn reason_text<S: Number>(verdict: &Verdict<S>) -> (r: String)
    ensures
        r@ == backtest_reason(*verdict),
{
    match verdict {
        Verdict::Safety(dd) => percent_text("🔴 SAFETY SWITCH: DD ", *dd),
        Verdict::StopLoss(loss) => percent_text("🛑 Stop Loss ", *loss),
        Verdict::MaxDrawdown(dd) => percent_text("🛑 Max Drawdown ", *dd),
        Verdict::TakeProfit(pft) => percent_text("✅ Take Profit ", *pft),
        Verdict::Clear => "".to_owned(),
    }
}

/// Whether the market falls and is volatile.
pub open spec fn is_stormy<S: Value>(state: MarketState<S>) -> bool {
    state.trend_signal is Bearish && state.regime is High
}

/// The limits and the course of the capital, as values.
pub ghost struct Risk<S> {
    pub initial: S,
    pub peak: S,
    pub max_loss: S,
    pub max_drawdown: S,
    pub profit_target: S,
    pub single_trade: S,
    pub safety: S,
    pub returns: Seq<S>,
    pub snapshot: S,
}

/// The loss on a peak in percent; zero where the peak is not positive.
pub open spec fn drawdown_from<S: Value>(peak: S, current: S) -> S {
    if S::count(0).below(peak) {
        peak.diff(current).quot(peak).prod(S::count(100))
    } else {
        S::count(0)
    }
}

impl<S: Value> Risk<S> {
    /// The limits of a configuration before anything happened.
    pub open spec fn of(cfg: BotConfig<S>) -> Risk<S> {
        Risk {
            initial: cfg.total_capital,
            peak: cfg.total_capital,
            max_loss: cfg.max_loss_pct,
            max_drawdown: cfg.max_drawdown_pct,
            profit_target: cfg.profit_target_pct,
            single_trade: cfg.max_single_trade_pct,
            safety: cfg.max_drawdown_pct.prod(ratio(15, 10)),
            returns: Seq::empty(),
            snapshot: cfg.total_capital,
        }
    }

    /// The limits of another configuration over the same course.
    pub open spec fn under(self, cfg: BotConfig<S>) -> Risk<S> {
        Risk {
            initial: self.initial,
            peak: self.peak,
            returns: self.returns,
            snapshot: self.snapshot,
            ..Risk::of(cfg)
        }
    }

    /// The limits with another profit target.
    pub open spec fn aiming_at(self, pct: S) -> Self {
        Risk { profit_target: pct, ..self }
    }

    /// The course once a value was seen: the peak is the highest value.
    pub open spec fn seen(self, current: S) -> Risk<S> {
        if self.peak.below(current) {
            Risk { peak: current, ..self }
        } else {
            self
        }
    }

    /// The course after a daily snapshot: the return on the last snapshot is
    /// noted, unless that was next to nothing.
    pub open spec fn after_day(self, val: S) -> Risk<S> {
        Risk {
            returns: if S::tiny().below(self.snapshot) {
                self.returns.push(val.diff(self.snapshot).quot(self.snapshot))
            } else {
                self.returns
            },
            snapshot: val,
            ..self
        }
    }

    /// The loss on the initial capital in percent.
    pub open spec fn loss_at(self, current: S) -> S {
        self.initial.diff(current).quot(self.initial).prod(S::count(100))
    }

    /// The profit on the initial capital in percent.
    pub open spec fn profit_at(self, current: S) -> S {
        current.diff(self.initial).quot(self.initial).prod(S::count(100))
    }

    /// The drawdown at a value that was seen.
    pub open spec fn drawdown_at(self, current: S) -> S {
        drawdown_from(self.seen(current).peak, current)
    }

    /// The first limit that a value reaches: the safety switch comes before the
    /// stop loss, the stop loss before the drawdown limit, and that before the
    /// profit target.
    pub open spec fn verdict_at(self, current: S) -> Verdict<S> {
        let dd = self.drawdown_at(current);
        if self.safety.at_most(dd) {
            Verdict::Safety(dd)
        } else if self.max_loss.at_most(self.loss_at(current)) {
            Verdict::StopLoss(self.loss_at(current))
        } else if self.max_drawdown.at_most(dd) {
            Verdict::MaxDrawdown(dd)
        } else if self.profit_target.at_most(self.profit_at(current)) {
            Verdict::TakeProfit(self.profit_at(current))
        } else {
            Verdict::Clear
        }
    }

    /// The size of the next position in quote currency.
    pub open spec fn size_of_position(self, capital: S, state: MarketState<S>) -> S {
        to_four_places(
            capital.prod(self.single_trade).prod(regime_share(state.regime)).prod(
                rsi_share(state.rsi),
            ).prod(state.trend_signal.position_factor()),
        )
    }
}

/// The answer of the limits to a value in a live session at an instant: a pause
/// has an end in milliseconds, and a storm brings a short one.
pub open spec fn answers_live<S: Value>(
    status: TradingStatus,
    reason: Seq<char>,
    risk: Risk<S>,
    current: S,
    state: MarketState<S>,
    now: u64,
) -> bool {
    match risk.verdict_at(current) {
        Verdict::Safety(dd) => {
            &&& status matches TradingStatus::SafetySwitchTripped { reason: told }
                && told@ == reason
            &&& reason == live_reason(Verdict::Safety(dd), risk.safety)
        },
        Verdict::Clear => if is_stormy(state) {
            &&& status == TradingStatus::PausedUntil((now + BEARISH_PAUSE_MS) as u64)
            &&& reason == "⚠️ Bearish + High Vol"@
        } else {
            &&& status == TradingStatus::Active
            &&& reason == ""@
        },
        verdict => {
            &&& status == TradingStatus::PausedUntil((now + LIMIT_PAUSE_MS) as u64)
            &&& reason == live_reason(verdict, risk.safety)
        },
    }
}

/// The answer of the limits to a value in a backtest: a pause has an end in
/// ticks.
pub open spec fn answers_backtest<S: Value>(
    status: BacktestStatus,
    reason: Seq<char>,
    risk: Risk<S>,
    current: S,
    until: u64,
) -> bool {
    &&& reason == backtest_reason(risk.verdict_at(current))
    &&& match risk.verdict_at(current) {
        Verdict::Safety(_) => status matches BacktestStatus::Stopped(told) && told@ == reason,
        Verdict::Clear => status == BacktestStatus::Active,
        _ => status == BacktestStatus::PausedUntilTick(until),
    }
}

impl<S: Value> View for RiskManager<S> {
    type V = Risk<S>;

    open spec fn view(&self) -> Risk<S> {
        Risk {
            initial: self.initial_capital,
            peak: self.peak_capital,
            max_loss: self.max_loss_pct,
            max_drawdown: self.max_drawdown_pct,
            profit_target: self.profit_target_pct,
            single_trade: self.max_single_trade,
            safety: self.safety_dd_pct,
            returns: self.daily_returns@,
            snapshot: self.prev_snapshot,
        }
    }
}

impl<S: Number> RiskManager<S> {
    pub fn new(cfg: &BotConfig<S>) -> (r: Self)
        ensures
            r@ == Risk::of(*cfg),
    {
        RiskManager {
            initial_capital: cfg.total_capital,
            peak_capital: cfg.total_capital,
            max_loss_pct: cfg.max_loss_pct,
            max_drawdown_pct: cfg.max_drawdown_pct,
            profit_target_pct: cfg.profit_target_pct,
            max_single_trade: cfg.max_single_trade_pct,
            safety_dd_pct: cfg.max_drawdown_pct.times(lit(15, 10)),
            daily_returns: Vec::new(),
            prev_snapshot: cfg.total_capital,
        }
    }

    pub fn with_profit_target(self, pct: S) -> (r: Self)
        ensures
            r@ == self@.aiming_at(pct),
    {
        let mut r = self;
        r.profit_target_pct = pct;
        r
    }

    /// Takes the limits of a new configuration; the capital and its course stay.
    pub fn reconfigure(&mut self, cfg: &BotConfig<S>)
        ensures
            final(self)@ == old(self)@.under(*cfg),
    {
        self.max_loss_pct = cfg.max_loss_pct;
        self.max_drawdown_pct = cfg.max_drawdown_pct;
        self.profit_target_pct = cfg.profit_target_pct;
        self.max_single_trade = cfg.max_single_trade_pct;
        self.safety_dd_pct = cfg.max_drawdown_pct.times(lit(15, 10));
    }

    pub fn update_peak(&mut self, current: S)
        ensures
            final(self)@ == old(self)@.seen(current),
    {
        if self.peak_capital.lt(current) {
            self.peak_capital = current;
        }
    }

    /// Notes the return since the last snapshot, unless the value then was next
    /// to nothing, and takes a new snapshot.
    pub fn record_daily_return(&mut self, val: S)
        ensures
            final(self)@ == old(self)@.after_day(val),
    {
        if S::epsilon().lt(self.prev_snapshot) {
            self.daily_returns.push(val.minus(self.prev_snapshot).over(self.prev_snapshot));
        }
        self.prev_snapshot = val;
    }

    pub fn drawdown_pct(&self, current: S) -> (r: S)
        ensures
            r == drawdown_from(self@.peak, current),
    {
        if S::from_u64(0).lt(self.peak_capital) {
            self.peak_capital.minus(current).over(self.peak_capital).times(S::from_u64(100))
        } else {
            S::from_u64(0)
        }
    }

    /// The position size by regime, relative strength and trend signal.
    pub fn position_size(&self, capital: S, state: &MarketState<S>) -> (r: S)
        ensures
            r == self@.size_of_position(capital, *state),
    {
        let base = capital.times(self.max_single_trade);
        let rf = match state.regime {
            Regime::High => lit(50, 100),
            Regime::Medium => lit(75, 100),
            Regime::Low => S::from_u64(1),
        };
        let rsif = if S::from_u64(75).lt(state.rsi) || state.rsi.lt(S::from_u64(25)) {
            lit(60, 100)
        } else {
            S::from_u64(1)
        };
        let tf = state.trend_signal.position_mult();
        four_places(base.times(rf).times(rsif).times(tf))
    }

    /// Notes the value and says which limit it reaches.
    fn assess(&mut self, current: S) -> (r: Verdict<S>)
        ensures
            final(self)@ == old(self)@.seen(current),
            r == old(self)@.verdict_at(current),
    {
        self.update_peak(current);
        let hundred = S::from_u64(100);
        let loss = self.initial_capital.minus(current).over(self.initial_capital).times(hundred);
        let dd = self.drawdown_pct(current);
        let pft = current.minus(self.initial_capital).over(self.initial_capital).times(hundred);
        if self.safety_dd_pct.le(dd) {
            Verdict::Safety(dd)
        } else if self.max_loss_pct.le(loss) {
            Verdict::StopLoss(loss)
        } else if self.max_drawdown_pct.le(dd) {
            Verdict::MaxDrawdown(dd)
        } else if self.profit_target_pct.le(pft) {
            Verdict::TakeProfit(pft)
        } else {
            Verdict::Clear
        }
    }

    /// The status of live trading at a portfolio value, with the reason where
    /// it is not active. `now` is the caller's millisecond clock.
    pub fn evaluate_live(&mut self, current: S, state: &MarketState<S>, now: u64) -> (r: (
        TradingStatus,
        String,
    ))
        requires
            now <= u64::MAX - LIMIT_PAUSE_MS,
        ensures
            final(self)@ == old(self)@.seen(current),
            answers_live(r.0, r.1@, old(self)@, current, *state, now),
    {
        let verdict = self.assess(current);
        match verdict {
            Verdict::Safety(dd) => {
                let mut reason = "🔴 SAFETY SWITCH: DD ".to_owned();
                reason.append(dd.to_text(2).as_str());
                reason.append("% ≥ ");
                reason.append(self.safety_dd_pct.to_text(1).as_str());
                reason.append("%");
                (TradingStatus::SafetySwitchTripped { reason: reason.clone() }, reason)
            },
            Verdict::Clear => {
                if matches!(state.trend_signal, TrendSignal::Bearish) && matches!(
                    state.regime,
                    Regime::High
                ) {
                    (
                        TradingStatus::PausedUntil(now + BEARISH_PAUSE_MS),
                        "⚠️ Bearish + High Vol".to_owned(),
                    )
                } else {
                    (TradingStatus::Active, "".to_owned())
                }
            },
            _ => (TradingStatus::PausedUntil(now + LIMIT_PAUSE_MS), reason_text(&verdict)),
        }
    }

    /// The status of a backtest at a portfolio value, with the reason where it
    /// is not active.
    pub fn evaluate_backtest(&mut self, current: S, tick: u64, pause_ticks: u64) -> (r: (
        BacktestStatus,
        String,
    ))
        requires
            tick + pause_ticks <= u64::MAX,
        ensures
            final(self)@ == old(self)@.seen(current),
            answers_backtest(r.0, r.1@, old(self)@, current, (tick + pause_ticks) as u64),
    {
        let verdict = self.assess(current);
        let reason = reason_text(&verdict);
        match verdict {
            Verdict::Safety(_) => (BacktestStatus::Stopped(reason.clone()), reason),
            Verdict::Clear => (BacktestStatus::Active, reason),
            _ => (BacktestStatus::PausedUntilTick(tick + pause_ticks), reason),
        }
    }
}

/// The peak never falls, and once a value was seen it is not below that value.
pub proof fn law_peak_never_falls<S: Ordered>(risk: Risk<S>, current: S)
    ensures
        !risk.seen(current).peak.below(risk.peak),
        !risk.seen(current).peak.below(current),
{
    S::law_strict(risk.peak, current);
    S::law_strict(current, current);
    S::law_strict(risk.peak, risk.peak);
}

/// The drawdown at a value that was seen is never negative.
pub proof fn law_drawdown_not_negative<S: Ordered>(risk: Risk<S>, current: S)
    ensures
        !risk.drawdown_at(current).below(S::count(0)),
{
    let peak = risk.seen(current).peak;
    law_peak_never_falls(risk, current);
    S::law_diff(peak, current);
    S::law_quot(peak.diff(current), peak);
    lemma_counts::<S>(0, 100);
    S::law_strict(S::count(100), S::count(0));
    S::law_prod(peak.diff(current).quot(peak), S::count(100));
    S::law_strict(S::count(0), S::count(0));
}

/// A drawdown past the safety switch stops a backtest and trips live trading
/// whatever the other limits say.
pub proof fn law_safety_comes_first<S: Value>(risk: Risk<S>, current: S)
    requires
        risk.safety.at_most(risk.drawdown_at(current)),
    ensures
        risk.verdict_at(current) is Safety,
{
}

/// The verdict looks at the limits and the peak alone: daily snapshots do not
/// change it, and seeing a value twice is seeing it once.
pub proof fn law_verdict_ignores_snapshots<S: Ordered>(risk: Risk<S>, current: S, val: S)
    ensures
        risk.after_day(val).verdict_at(current) == risk.verdict_at(current),
        risk.seen(current).seen(current) == risk.seen(current),
        risk.seen(current).verdict_at(current) == risk.verdict_at(current),
{
    S::law_strict(current, current);
}

/// Live trading and backtests agree: the safety switch trips in both or in none,
/// a limit pauses both with one text, and where no limit is reached only a storm
/// pauses a live session. The peak after either is that of `Risk::seen`.
pub proof fn law_live_and_backtest_agree<S: Value>(
    live: TradingStatus,
    live_text: Seq<char>,
    test: BacktestStatus,
    test_text: Seq<char>,
    risk: Risk<S>,
    current: S,
    state: MarketState<S>,
    now: u64,
    until: u64,
)
    requires
        answers_live(live, live_text, risk, current, state, now),
        answers_backtest(test, test_text, risk, current, until),
    ensures
        live is SafetySwitchTripped <==> test is Stopped,
        test is PausedUntilTick ==> live == TradingStatus::PausedUntil(
            (now + LIMIT_PAUSE_MS) as u64,
        ) && live_text == test_text,
        test is Active ==> if is_stormy(state) {
            live == TradingStatus::PausedUntil((now + BEARISH_PAUSE_MS) as u64)
        } else {
            live is Active && live_text == ""@
        },
{
}

/// The size of a position is not negative where the capital and its share are
/// not.
pub proof fn law_position_is_not_negative<S: Total>(
    risk: Risk<S>,
    capital: S,
    state: MarketState<S>,
)
    requires
        !capital.below(S::count(0)),
        !risk.single_trade.below(S::count(0)),
    ensures
        !risk.size_of_position(capital, state).below(S::count(0)),
{
    let zero = S::count(0);
    let (a, b) = (regime_share::<S>(state.regime), rsi_share(state.rsi));
    let c = state.trend_signal.position_factor::<S>();
    S::law_positive_ratio(50, 100);
    S::law_positive_ratio(75, 100);
    S::law_positive_ratio(60, 100);
    S::law_positive_ratio(120, 100);
    S::law_positive_ratio(85, 100);
    S::law_positive_ratio(70, 100);
    S::law_one();
    S::law_strict(zero, a);
    S::law_strict(zero, b);
    S::law_strict(zero, c);
    let x = capital.prod(risk.single_trade);
    S::law_prod(capital, risk.single_trade);
    S::law_prod(x, a);
    S::law_prod(x.prod(a), b);
    S::law_prod(x.prod(a).prod(b), c);
    let y = x.prod(a).prod(b).prod(c);
    let scale = S::count(10_000);
    S::law_counts(10_000, 10_000);
    S::law_strict(zero, scale);
    S::law_prod(y, scale);
    S::law_monotone(y.prod(scale), zero, zero);
    S::law_two();
    S::law_quot(y.prod(scale).nearest(), scale);
}

} // verus!
